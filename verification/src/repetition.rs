//! Which slots make up a loop, and what dealing with loops leaves.
use vstd::prelude::*;
use crate::census::{count, lemma_count_fewer, lemma_count_none, lemma_count_one};
use crate::consolidation::{consolidated, merges};
use crate::context::cleaned;
use crate::effects::{is_constraint_of, lemma_consolidating, lemma_mitigating, moved_to_past};
use crate::fingerprint::fingerprint;
use crate::history::lemma_settled;
use crate::loops::{
    anchor, commonest_of, fingerprints, ids_with, lemma_commonest, lemma_ids_with,
    lemma_mitigation_shrinks, lemma_repeated_key, loop_in, mitigated, occurrences, present_logs,
    repeated_key, settled, trimmed_logs, LoopView,
};
use crate::memory::{archived, lemma_archive, lemma_insert, lemma_next_order, ChangeView, State};
use crate::slot::{
    ids_of, lemma_picked_is_selected, lemma_selected_picks, lemma_states_differ, selected, Query,
    SlotView,
};
use crate::text::{decimal, trim};
use crate::text_laws::lemma_prefix;

verus! {

/// Whether a slot is in a session's present and has a log.
pub open spec fn is_logged(session: Seq<char>, slot: SlotView) -> bool {
    slot.session_id == session && slot.temporal_state == "PRESENT"@ && slot.raw_log is Some
}

/// The slots of a session's present whose log is `key` once trimmed.
pub open spec fn same_log(session: Seq<char>, key: Seq<char>) -> spec_fn(SlotView) -> bool {
    |slot: SlotView| is_logged(session, slot) && trim(slot.raw_log->0) == key
}

/// The slots of a session's present whose log has the fingerprint `key`.
pub open spec fn same_print(session: Seq<char>, key: Seq<char>) -> spec_fn(SlotView) -> bool {
    |slot: SlotView| is_logged(session, slot) && fingerprint(slot.raw_log->0) == key
}

/// The keys of slots, newest last, by a function of their logs.
spec fn keys_by(slots: Seq<SlotView>, key_of: spec_fn(Seq<char>) -> Seq<char>) -> Seq<Seq<char>> {
    Seq::new(slots.len(), |i: int| key_of(slots[i].raw_log->0))
}

/// Among selected slots a key occurs as often as there are slots that are picked and have it.
proof fn lemma_occurrences_counted(
    slots: Seq<SlotView>,
    query: Query,
    key_of: spec_fn(Seq<char>) -> Seq<char>,
    key: Seq<char>,
    which: spec_fn(SlotView) -> bool,
)
    requires
        forall|slot: SlotView| #[trigger]
            which(slot) == (query.picks(slot) && key_of(slot.raw_log->0) == key),
    ensures
        occurrences(keys_by(selected(slots, query), key_of), key) == count(slots, which),
    decreases slots.len(),
{
    if slots.len() > 0 {
        let front = slots.drop_last();
        let slot = slots.last();
        lemma_occurrences_counted(front, query, key_of, key, which);
        let before = selected(front, query);
        assert(which(slot) == (query.picks(slot) && key_of(slot.raw_log->0) == key));
        if query.picks(slot) {
            let keys = keys_by(before.push(slot), key_of);
            assert(keys.drop_last() =~= keys_by(before, key_of));
            assert(keys.last() == key_of(slot.raw_log->0));
        }
    } else {
        assert(keys_by(selected(slots, query), key_of).len() == 0);
    }
}

/// A further key in front counts as one at the end does.
proof fn lemma_occurrences_in_front(first: Seq<char>, keys: Seq<Seq<char>>, key: Seq<char>)
    ensures
        occurrences(seq![first] + keys, key) == occurrences(keys, key) + if first == key {
            1nat
        } else {
            0nat
        },
    decreases keys.len(),
{
    let all = seq![first] + keys;
    if keys.len() == 0 {
        assert(all.drop_last() =~= Seq::<Seq<char>>::empty());
        assert(occurrences(all.drop_last(), key) == 0);
    } else {
        lemma_occurrences_in_front(first, keys.drop_last(), key);
        assert(all.drop_last() =~= seq![first] + keys.drop_last());
    }
}

/// How often a key occurs does not depend on the order.
proof fn lemma_occurrences_reversed(keys: Seq<Seq<char>>, key: Seq<char>)
    ensures
        occurrences(keys.reverse(), key) == occurrences(keys, key),
    decreases keys.len(),
{
    if keys.len() == 0 {
        assert(keys.reverse() =~= keys);
    } else {
        lemma_occurrences_reversed(keys.drop_last(), key);
        lemma_occurrences_in_front(keys.last(), keys.drop_last().reverse(), key);
        assert(keys.reverse() =~= seq![keys.last()] + keys.drop_last().reverse());
    }
}

/// A log occurs as often as there are slots that have it.
proof fn lemma_logs_counted(state: State, session: Seq<char>, key: Seq<char>)
    ensures
        occurrences(trimmed_logs(present_logs(state, session)), key) == count(
            state.slots,
            same_log(session, key),
        ),
{
    let query = Query::in_state(session, "PRESENT"@).with_log();
    let key_of = |log: Seq<char>| trim(log);
    let picked = selected(state.slots, query);
    assert forall|slot: SlotView| #[trigger]
        same_log(session, key)(slot) == (query.picks(slot) && key_of(slot.raw_log->0) == key) by {}
    lemma_occurrences_counted(state.slots, query, key_of, key, same_log(session, key));
    lemma_occurrences_reversed(keys_by(picked, key_of), key);
    assert(trimmed_logs(present_logs(state, session)) =~= keys_by(picked, key_of).reverse());
}

/// A fingerprint occurs as often as there are slots that have it.
proof fn lemma_prints_counted(state: State, session: Seq<char>, key: Seq<char>)
    ensures
        occurrences(fingerprints(present_logs(state, session)), key) == count(
            state.slots,
            same_print(session, key),
        ),
{
    let query = Query::in_state(session, "PRESENT"@).with_log();
    let key_of = |log: Seq<char>| fingerprint(log);
    let picked = selected(state.slots, query);
    assert forall|slot: SlotView| #[trigger]
        same_print(session, key)(slot) == (query.picks(slot) && key_of(slot.raw_log->0) == key) by {}
    lemma_occurrences_counted(state.slots, query, key_of, key, same_print(session, key));
    lemma_occurrences_reversed(keys_by(picked, key_of), key);
    assert(fingerprints(present_logs(state, session)) =~= keys_by(picked, key_of).reverse());
}

/// Whether `found` is the loop of the slots that `key` picks: its ids are theirs, there are `threshold` of
/// them or more, and its signature is the start of the key.
pub open spec fn is_loop_of(
    state: State,
    threshold: int,
    found: LoopView,
    key: Seq<char>,
    which: spec_fn(SlotView) -> bool,
) -> bool {
    &&& forall|i: int|
        0 <= i < state.slots.len() ==> found.ids.contains((#[trigger] state.slots[i]).id) == which(
            state.slots[i],
        )
    &&& forall|id: i64| #[trigger]
        found.ids.contains(id) ==> exists|i: int|
            0 <= i < state.slots.len() && (#[trigger] state.slots[i]).id == id
    &&& found.ids.len() == count(state.slots, which)
    &&& count(state.slots, which) >= threshold
    &&& found.signature.is_prefix_of(key)
    &&& found.signature.len() == if key.len() < 80 {
        key.len() as int
    } else {
        80
    }
}

/// The ids of a loop are those of the slots that have its key.
proof fn lemma_loop_ids(
    state: State,
    session: Seq<char>,
    keys: Seq<Seq<char>>,
    key: Seq<char>,
    key_of: spec_fn(Seq<char>) -> Seq<char>,
    which: spec_fn(SlotView) -> bool,
)
    requires
        state.valid(),
        keys.len() == present_logs(state, session).len(),
        forall|k: int|
            0 <= k < keys.len() ==> #[trigger] keys[k] == key_of(
                present_logs(state, session)[k].raw_log->0,
            ),
        forall|slot: SlotView| #[trigger]
            which(slot) == (is_logged(session, slot) && key_of(slot.raw_log->0) == key),
    ensures
        ({
            let ids = ids_with(ids_of(present_logs(state, session)), keys, key);
            &&& forall|i: int|
                0 <= i < state.slots.len() ==> ids.contains((#[trigger] state.slots[i]).id) == which(
                    state.slots[i],
                )
            &&& forall|id: i64| #[trigger]
                ids.contains(id) ==> exists|i: int|
                    0 <= i < state.slots.len() && (#[trigger] state.slots[i]).id == id
        }),
{
    let query = Query::in_state(session, "PRESENT"@).with_log();
    let picked = selected(state.slots, query);
    let newest = present_logs(state, session);
    let all = ids_of(newest);
    let ids = ids_with(all, keys, key);
    lemma_selected_picks(state.slots, query);
    lemma_ids_with(all, keys, key);
    assert forall|id: i64| #[trigger] ids.contains(id) implies exists|i: int|
        0 <= i < state.slots.len() && (#[trigger] state.slots[i]).id == id && which(state.slots[i]) by {
        let k = choose|k: int| 0 <= k < keys.len() && #[trigger] keys[k] == key && all[k] == id;
        let slot = newest[k];
        assert(slot == picked[picked.len() - 1 - k]);
        assert(query.picks(slot));
        let i = choose|i: int| 0 <= i < state.slots.len() && state.slots[i] == slot;
        assert(state.slots[i].id == id && which(state.slots[i]));
    }
    assert forall|i: int| 0 <= i < state.slots.len() implies ids.contains(
        (#[trigger] state.slots[i]).id,
    ) == which(state.slots[i]) by {
        let slot = state.slots[i];
        if which(slot) {
            lemma_picked_is_selected(state.slots, query, i);
            let k = choose|k: int| 0 <= k < picked.len() && picked[k] == slot;
            let n = picked.len() - 1 - k;
            assert(newest[n] == slot);
            assert(keys[n] == key);
            assert(ids.contains(all[n]));
        }
        if ids.contains(slot.id) {
            let j = choose|j: int|
                0 <= j < state.slots.len() && (#[trigger] state.slots[j]).id == slot.id && which(
                    state.slots[j],
                );
            assert(i == j);
        }
    }
}

/// A loop is made of all slots in the session's present whose trimmed log is the same, where these are
/// `threshold` or more; where no log is shared by so many, of all whose fingerprint is the same. No other
/// log, or fingerprint, is shared by more. There is no loop exactly where none is shared by so many.
pub proof fn lemma_loop_is_a_shared_log(state: State, session: Seq<char>, threshold: int)
    requires
        state.valid(),
        threshold >= 1,
    ensures
        match loop_in(state, session, threshold) {
            Some(found) => {
                &&& found.exact ==> exists|key: Seq<char>|
                    {
                        &&& #[trigger] is_loop_of(state, threshold, found, key, same_log(session, key))
                        &&& forall|other: Seq<char>|
                            count(state.slots, #[trigger] same_log(session, other)) <= found.ids.len()
                    }
                &&& !found.exact ==> exists|key: Seq<char>|
                    {
                        &&& #[trigger] is_loop_of(
                            state,
                            threshold,
                            found,
                            key,
                            same_print(session, key),
                        )
                        &&& forall|other: Seq<char>|
                            count(state.slots, #[trigger] same_print(session, other)) <= found.ids.len()
                        &&& forall|other: Seq<char>|
                            count(state.slots, #[trigger] same_log(session, other)) < threshold
                    }
            },
            None => {
                &&& forall|key: Seq<char>|
                    count(state.slots, #[trigger] same_log(session, key)) < threshold
                &&& forall|key: Seq<char>|
                    count(state.slots, #[trigger] same_print(session, key)) < threshold
            },
        },
{
    let slots = present_logs(state, session);
    let logs = trimmed_logs(slots);
    let prints = fingerprints(slots);
    let ids = ids_of(slots);
    assert forall|key: Seq<char>|
        occurrences(logs, key) == count(state.slots, #[trigger] same_log(session, key)) by {
        lemma_logs_counted(state, session, key);
    }
    assert forall|key: Seq<char>|
        occurrences(prints, key) == count(state.slots, #[trigger] same_print(session, key)) by {
        lemma_prints_counted(state, session, key);
    }
    lemma_repeated_key(logs, threshold);
    lemma_repeated_key(prints, threshold);
    if slots.len() < threshold {
        assert forall|key: Seq<char>|
            count(state.slots, #[trigger] same_log(session, key)) < threshold by {
            lemma_ids_with(ids, logs, key);
            lemma_few_ids(ids, logs, key);
        }
        assert forall|key: Seq<char>|
            count(state.slots, #[trigger] same_print(session, key)) < threshold by {
            lemma_ids_with(ids, prints, key);
            lemma_few_ids(ids, prints, key);
        }
    } else if let Some(key) = repeated_key(logs, threshold) {
        let key_of = |log: Seq<char>| trim(log);
        let found = loop_in(state, session, threshold)->0;
        lemma_ids_with(ids, logs, key);
        lemma_loop_ids(state, session, logs, key, key_of, same_log(session, key));
        lemma_prefix(key, 80);
        assert(is_loop_of(state, threshold, found, key, same_log(session, key)));
    } else if let Some(key) = repeated_key(prints, threshold) {
        let key_of = |log: Seq<char>| fingerprint(log);
        let found = loop_in(state, session, threshold)->0;
        lemma_ids_with(ids, prints, key);
        lemma_loop_ids(state, session, prints, key, key_of, same_print(session, key));
        lemma_prefix(key, 80);
        assert(is_loop_of(state, threshold, found, key, same_print(session, key)));
    }
}

/// No more ids have a key than there are.
proof fn lemma_few_ids(ids: Seq<i64>, keys: Seq<Seq<char>>, key: Seq<char>)
    requires
        ids.len() == keys.len(),
    ensures
        ids_with(ids, keys, key).len() <= ids.len(),
    decreases keys.len(),
{
    if keys.len() > 0 {
        lemma_few_ids(ids.drop_last(), keys.drop_last(), key);
    }
}

/// Whether `after` is `before` with exactly those slots that meet a condition moved to the past, of which
/// there are `threshold` or more, and one slot added.
pub open spec fn archives_repeated(
    before: State,
    after: State,
    threshold: int,
    which: spec_fn(SlotView) -> bool,
) -> bool {
    &&& after.slots.len() == before.slots.len() + 1
    &&& count(before.slots, which) >= threshold
    &&& forall|i: int|
        0 <= i < before.slots.len() ==> #[trigger] after.slots[i] == if which(before.slots[i]) {
            moved_to_past(before.slots[i])
        } else {
            before.slots[i]
        }
}

/// Whether `after` is `before` with the slots of one shared log, or else of one shared fingerprint, archived.
pub open spec fn archives_a_loop(
    before: State,
    after: State,
    session: Seq<char>,
    threshold: int,
) -> bool {
    ||| exists|key: Seq<char>| #[trigger]
        archives_repeated(before, after, threshold, same_log(session, key))
    ||| exists|key: Seq<char>| #[trigger]
        archives_repeated(before, after, threshold, same_print(session, key))
}

/// Dealing with a loop archives the slots that share a log, or else a fingerprint, and no other.
pub proof fn lemma_loop_is_archived(state: State, session: Seq<char>, threshold: int)
    requires
        state.valid(),
        state.room(1),
        threshold >= 1,
        loop_in(state, session, threshold) is Some,
    ensures
        archives_a_loop(
            state,
            mitigated(state, session, loop_in(state, session, threshold)->0),
            session,
            threshold,
        ),
{
    let found = loop_in(state, session, threshold)->0;
    let after = mitigated(state, session, found);
    lemma_loop_is_a_shared_log(state, session, threshold);
    lemma_mitigating(state, session, found);
    if found.exact {
        let key = choose|key: Seq<char>| #[trigger]
            is_loop_of(state, threshold, found, key, same_log(session, key));
        assert(archives_repeated(state, after, threshold, same_log(session, key)));
    } else {
        let key = choose|key: Seq<char>| #[trigger]
            is_loop_of(state, threshold, found, key, same_print(session, key));
        assert(archives_repeated(state, after, threshold, same_print(session, key)));
    }
}

/// The slots of a loop that is reported as exact are in the session's present, and any two of them have
/// logs that are equal once trimmed.
pub proof fn lemma_exact_loop_has_one_log(
    state: State,
    session: Seq<char>,
    threshold: int,
    i: int,
    j: int,
)
    requires
        state.valid(),
        threshold >= 1,
        loop_in(state, session, threshold) is Some,
        loop_in(state, session, threshold)->0.exact,
        0 <= i < state.slots.len(),
        0 <= j < state.slots.len(),
        loop_in(state, session, threshold)->0.ids.contains(state.slots[i].id),
        loop_in(state, session, threshold)->0.ids.contains(state.slots[j].id),
    ensures
        state.slots[i].session_id == session,
        state.slots[i].temporal_state == "PRESENT"@,
        state.slots[i].raw_log is Some,
        state.slots[j].raw_log is Some,
        trim(state.slots[i].raw_log->0) == trim(state.slots[j].raw_log->0),
{
    lemma_loop_is_a_shared_log(state, session, threshold);
    let found = loop_in(state, session, threshold)->0;
    let key = choose|key: Seq<char>| #[trigger]
        is_loop_of(state, threshold, found, key, same_log(session, key));
    assert(same_log(session, key)(state.slots[i]));
    assert(same_log(session, key)(state.slots[j]));
}

/// Where any two slots of a session's present have different logs, once trimmed, and different
/// fingerprints, there is no loop.
pub proof fn lemma_different_logs_are_no_loop(state: State, session: Seq<char>, threshold: int)
    requires
        state.valid(),
        threshold >= 2,
        forall|i: int, j: int|
            0 <= i < j < state.slots.len() && is_logged(session, #[trigger] state.slots[i]) && is_logged(
                session,
                #[trigger] state.slots[j],
            ) ==> {
                &&& trim(state.slots[i].raw_log->0) != trim(state.slots[j].raw_log->0)
                &&& fingerprint(state.slots[i].raw_log->0) != fingerprint(state.slots[j].raw_log->0)
            },
    ensures
        loop_in(state, session, threshold) is None,
{
    lemma_loop_is_a_shared_log(state, session, threshold);
    if let Some(found) = loop_in(state, session, threshold) {
        if found.exact {
            let key = choose|key: Seq<char>| #[trigger]
                is_loop_of(state, threshold, found, key, same_log(session, key));
            lemma_count_one(state.slots, same_log(session, key));
        } else {
            let key = choose|key: Seq<char>| #[trigger]
                is_loop_of(state, threshold, found, key, same_print(session, key));
            lemma_count_one(state.slots, same_print(session, key));
        }
    }
}

/// Without a threshold, a session that has a log in its present has the loop that one slot makes; one
/// without logs has a loop of none.
pub proof fn lemma_loop_without_threshold(state: State, session: Seq<char>)
    ensures
        present_logs(state, session).len() > 0 ==> loop_in(state, session, 0) == loop_in(state, session, 1),
        present_logs(state, session).len() == 0 ==> loop_in(state, session, 0) == Some(
            LoopView { ids: seq![], signature: seq![], exact: true },
        ),
{
    let slots = present_logs(state, session);
    let logs = trimmed_logs(slots);
    if slots.len() > 0 {
        lemma_commonest(logs, logs.len() as int);
        let key = logs[commonest_of(logs, logs.len() as int)];
        let ids = ids_of(slots);
        let k = commonest_of(logs, logs.len() as int);
        lemma_ids_with(ids, logs, key);
        assert(ids_with(ids, logs, key).contains(ids[k]));
        assert(occurrences(logs, key) >= 1);
    }
}

/// Whether a slot of a session's present shares its log or its fingerprint with so many others that it is
/// part of an error loop.
pub open spec fn is_repeated(state: State, session: Seq<char>, slot: SlotView) -> bool {
    &&& is_logged(session, slot)
    &&& {
        ||| count(state.slots, same_log(session, trim(slot.raw_log->0))) >= 3
        ||| count(state.slots, same_print(session, fingerprint(slot.raw_log->0))) >= 3
    }
}

/// Whether `after` is `before` with some repeated slots moved to the past and constraints of the session
/// added.
pub open spec fn is_settled_from(before: State, after: State, session: Seq<char>) -> bool {
    &&& before.slots.len() <= after.slots.len()
    &&& forall|i: int|
        0 <= i < before.slots.len() ==> {
            ||| #[trigger] after.slots[i] == before.slots[i]
            ||| after.slots[i] == moved_to_past(before.slots[i]) && is_repeated(
                before,
                session,
                before.slots[i],
            )
        }
    &&& forall|i: int|
        before.slots.len() <= i < after.slots.len() ==> (#[trigger] after.slots[i]).session_id == session
            && after.slots[i].temporal_state == "FUTURE"@ && after.slots[i].constraint_type == Some(
            "DERIVED"@,
        ) && after.slots[i].raw_log is None
}

/// Moving slots to the past and adding a constraint makes no log or fingerprint more common.
proof fn lemma_counted_less(
    before: State,
    after: State,
    session: Seq<char>,
    which: spec_fn(SlotView) -> bool,
)
    requires
        after.slots.len() == before.slots.len() + 1,
        !which(after.slots.last()),
        forall|i: int|
            0 <= i < before.slots.len() ==> {
                ||| #[trigger] after.slots[i] == before.slots[i]
                ||| !which(after.slots[i])
            },
    ensures
        count(after.slots, which) <= count(before.slots, which),
{
    let front = after.slots.drop_last();
    assert forall|i: int| 0 <= i < front.len() && which(#[trigger] front[i]) implies which(
        before.slots[i],
    ) by {
        assert(front[i] == after.slots[i]);
    }
    lemma_count_fewer(front, before.slots, which);
}

/// Settling a session's loops leaves no log and no fingerprint that three slots of its present share. It
/// moves none to the past but slots whose log or fingerprint three or more shared, changes no other, and
/// adds nothing but constraints of the session.
pub proof fn lemma_settling(state: State, session: Seq<char>)
    requires
        state.valid(),
        state.room(present_logs(state, session).len() as int + 1),
    ensures
        is_settled_from(state, settled(state, session), session),
        forall|key: Seq<char>|
            count(settled(state, session).slots, #[trigger] same_log(session, key)) < 3,
        forall|key: Seq<char>|
            count(settled(state, session).slots, #[trigger] same_print(session, key)) < 3,
    decreases present_logs(state, session).len(),
{
    lemma_loop_is_a_shared_log(state, session, 3);
    lemma_states_differ();
    if let Some(found) = loop_in(state, session, 3) {
        let next = mitigated(state, session, found);
        let after = settled(state, session);
        lemma_mitigation_shrinks(state, session, 3);
        let n = present_logs(state, session).len() as int + 1;
        assert(state.room(n));
        assert(state.room(1));
        lemma_mitigating(state, session, found);
        let moved = state.step(ChangeView::ArchiveSlots(found.ids));
        lemma_archive(state, found.ids);
        assert(moved.room(n));
        lemma_next_order(moved, session);
        lemma_insert(moved, moved.future_slot(session, anchor(found), "DERIVED"@));
        assert(next.valid());
        assert(next.room(n - 1));
        assert(next.room(present_logs(next, session).len() as int + 1));
        lemma_settling(next, session);
        assert forall|key: Seq<char>|
            count(next.slots, #[trigger] same_log(session, key)) <= count(
                state.slots,
                same_log(session, key),
            ) by {
            lemma_counted_less(state, next, session, same_log(session, key));
        }
        assert forall|key: Seq<char>|
            count(next.slots, #[trigger] same_print(session, key)) <= count(
                state.slots,
                same_print(session, key),
            ) by {
            lemma_counted_less(state, next, session, same_print(session, key));
        }
        assert forall|i: int| 0 <= i < state.slots.len() implies {
            ||| #[trigger] after.slots[i] == state.slots[i]
            ||| after.slots[i] == moved_to_past(state.slots[i]) && is_repeated(
                state,
                session,
                state.slots[i],
            )
        } by {
            let slot = state.slots[i];
            assert(next.slots[i] == if found.ids.contains(slot.id) {
                moved_to_past(slot)
            } else {
                slot
            });
            if found.ids.contains(slot.id) {
                if found.exact {
                    let key = choose|key: Seq<char>| #[trigger]
                        is_loop_of(state, 3, found, key, same_log(session, key));
                    assert(same_log(session, key)(slot));
                } else {
                    let key = choose|key: Seq<char>| #[trigger]
                        is_loop_of(state, 3, found, key, same_print(session, key));
                    assert(same_print(session, key)(slot));
                }
                assert(is_repeated(state, session, slot));
                assert(!is_repeated(next, session, next.slots[i]));
            } else if is_repeated(next, session, slot) {
                let log = trim(slot.raw_log->0);
                let print = fingerprint(slot.raw_log->0);
                assert(count(next.slots, same_log(session, log)) <= count(
                    state.slots,
                    same_log(session, log),
                ));
                assert(count(next.slots, same_print(session, print)) <= count(
                    state.slots,
                    same_print(session, print),
                ));
            }
        }
        assert forall|i: int| state.slots.len() <= i < after.slots.len() implies (
        #[trigger] after.slots[i]).session_id == session && after.slots[i].temporal_state == "FUTURE"@
            && after.slots[i].constraint_type == Some("DERIVED"@) && after.slots[i].raw_log is None by {
            if i < next.slots.len() {
                assert(next.slots[i] == next.slots.last());
                assert(!is_repeated(next, session, next.slots[i]));
            }
        }
    }
}

/// Cleaning a session up takes one step after the other: while three slots or more make a loop, that loop
/// is dealt with; then constraints are merged where they are too many; and that is all.
pub proof fn lemma_cleaning_steps(state: State, session: Seq<char>)
    ensures
        match loop_in(state, session, 3) {
            Some(found) => {
                &&& settled(state, session) == settled(mitigated(state, session, found), session)
                &&& cleaned(state, session) == cleaned(mitigated(state, session, found), session)
            },
            None => {
                &&& settled(state, session) == state
                &&& merges(state, session) ==> cleaned(state, session) == consolidated(state, session)
                &&& !merges(state, session) ==> cleaned(state, session) == state
            },
        },
{
    if loop_in(state, session, 3) is Some {
        lemma_mitigation_shrinks(state, session, 3);
    }
}

/// Whether a slot of the session is moved to the past when the session is cleaned up, or may be: it is part
/// of an error loop, or it is a constraint.
pub open spec fn may_be_archived(state: State, session: Seq<char>, slot: SlotView) -> bool {
    is_repeated(state, session, slot) || is_constraint_of(session, slot)
}

/// Cleaning a session up leaves no log and no fingerprint that three slots of its present share, and no
/// more than five constraints unless none of them has a lesson. It moves no other slot to the past than
/// those of error loops and constraints, changes nothing else of any slot, and adds nothing but
/// constraints of the session.
pub proof fn lemma_cleaning(state: State, session: Seq<char>)
    requires
        state.valid(),
        state.room(present_logs(state, session).len() as int + 1),
    ensures
        ({
            let after = cleaned(state, session);
            let constraint = |slot: SlotView| is_constraint_of(session, slot);
            &&& state.slots.len() <= after.slots.len()
            &&& forall|i: int|
                0 <= i < state.slots.len() ==> {
                    ||| #[trigger] after.slots[i] == state.slots[i]
                    ||| after.slots[i] == moved_to_past(state.slots[i]) && may_be_archived(
                        state,
                        session,
                        state.slots[i],
                    )
                }
            &&& forall|i: int|
                state.slots.len() <= i < after.slots.len() ==> (
                #[trigger] after.slots[i]).session_id == session && after.slots[i].constraint_type
                    == Some("DERIVED"@) && after.slots[i].raw_log is None
            &&& forall|key: Seq<char>| count(after.slots, #[trigger] same_log(session, key)) < 3
            &&& forall|key: Seq<char>| count(after.slots, #[trigger] same_print(session, key)) < 3
            &&& count(after.slots, constraint) <= 5 || forall|i: int|
                0 <= i < after.slots.len() && is_constraint_of(session, #[trigger] after.slots[i])
                    ==> after.slots[i].learning_summary is None
        }),
{
    let middle = settled(state, session);
    let after = cleaned(state, session);
    let constraint = |slot: SlotView| is_constraint_of(session, slot);
    lemma_states_differ();
    lemma_settling(state, session);
    lemma_settled(state, session);
    lemma_consolidating(middle, session);
    if merges(middle, session) {
        assert forall|key: Seq<char>| count(after.slots, #[trigger] same_log(session, key)) < 3 by {
            lemma_counted_less(middle, after, session, same_log(session, key));
        }
        assert forall|key: Seq<char>| count(after.slots, #[trigger] same_print(session, key)) < 3 by {
            lemma_counted_less(middle, after, session, same_print(session, key));
        }
        let front = after.slots.drop_last();
        assert forall|i: int| 0 <= i < front.len() implies !constraint(#[trigger] front[i]) by {
            assert(front[i] == after.slots[i]);
        }
        lemma_count_none(front, constraint);
        assert forall|i: int| 0 <= i < state.slots.len() implies {
            ||| #[trigger] after.slots[i] == state.slots[i]
            ||| after.slots[i] == moved_to_past(state.slots[i]) && may_be_archived(
                state,
                session,
                state.slots[i],
            )
        } by {
            assert(middle.slots[i] == state.slots[i] || middle.slots[i] == moved_to_past(
                state.slots[i],
            ));
        }
        assert forall|i: int| state.slots.len() <= i < after.slots.len() implies (
        #[trigger] after.slots[i]).session_id == session && after.slots[i].constraint_type == Some(
            "DERIVED"@,
        ) && after.slots[i].raw_log is None by {
            if i < middle.slots.len() {
                assert(middle.slots[i].session_id == session);
            } else {
                assert(after.slots[i] == after.slots.last());
            }
        }
    }
}

/// The answer to a loop says how it was recognised, how many slots it has, and how its key starts.
pub proof fn lemma_anchor(found: LoopView) -> (parts: (Seq<char>, Seq<char>))
    ensures
        found.exact ==> anchor(found) == "[SYSTEM ANCHOR] Loop detected ("@ + "exact"@ + parts.0,
        !found.exact ==> anchor(found) == "[SYSTEM ANCHOR] Loop detected ("@ + "fingerprint"@ + parts.0,
        parts.0 == "): the same error pattern appeared "@ + decimal(found.ids.len() as int)
            + " times. Last signature: \""@ + found.signature + parts.1,
        parts.1
            == "...\". CURRENT STRATEGY EXHAUSTED. Mandatory: completely change approach. Do not repeat the same action. Try another tool, another file, or consult the user."@,
{
    let end =
        "...\". CURRENT STRATEGY EXHAUSTED. Mandatory: completely change approach. Do not repeat the same action. Try another tool, another file, or consult the user."@;
    let rest = "): the same error pattern appeared "@ + decimal(found.ids.len() as int)
        + " times. Last signature: \""@ + found.signature + end;
    if found.exact {
        assert(anchor(found) =~= "[SYSTEM ANCHOR] Loop detected ("@ + "exact"@ + rest);
    } else {
        assert(anchor(found) =~= "[SYSTEM ANCHOR] Loop detected ("@ + "fingerprint"@ + rest);
    }
    (rest, end)
}

} // verus!

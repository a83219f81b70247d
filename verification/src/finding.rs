//! What a history, a search and a summary tell of a session.
use vstd::prelude::*;
use vstd::utf8::encode_utf8;
use crate::casing::ascii_lower;
use crate::census::{count, is_listed, lemma_lists_further, lemma_selected_lists, lists, log_chars};
use crate::effects::moved_to_past;
use crate::keywords::{alike, alike_at, holds};
use crate::memory::{archived, session_slots, total_weight, ChangeView, State};
use crate::slot::{lemma_picked_is_selected, lemma_selected_picks, selected, Query, SlotView};
use crate::text::decimal;
use crate::timeline::{count_in, history, hit, hits, search, search_fails, session_tokens, summary};
use crate::tokens::estimated_tokens;

verus! {

/// Whether two characters are equal, or one is an ASCII capital and the other its small letter.
pub open spec fn is_same_letter(a: char, b: char) -> bool {
    ||| a == b
    ||| 'A' <= a <= 'Z' && b as int == a as int + 32
    ||| 'A' <= b <= 'Z' && a as int == b as int + 32
}

/// Whether a text has `key` somewhere in it, but for the case of ASCII letters.
pub open spec fn mentions(text: Seq<char>, key: Seq<char>) -> bool {
    exists|i: int|
        0 <= i <= text.len() - key.len() && #[trigger] mentions_at(text, key, i)
}

/// Whether a text has `key` at `i`, but for the case of ASCII letters.
pub open spec fn mentions_at(text: Seq<char>, key: Seq<char>, i: int) -> bool {
    forall|k: int| 0 <= k < key.len() ==> is_same_letter(#[trigger] key[k], text[i + k])
}

/// The slots of a session, in whatever state, whose log or lesson mentions `key`.
pub open spec fn mentioning(session: Seq<char>, key: Seq<char>) -> spec_fn(SlotView) -> bool {
    |slot: SlotView|
        slot.session_id == session && ((slot.raw_log is Some && mentions(slot.raw_log->0, key)) || (
        slot.learning_summary is Some && mentions(slot.learning_summary->0, key)))
}

/// The slots of a session, in whatever state.
pub open spec fn of_session(session: Seq<char>) -> spec_fn(SlotView) -> bool {
    |slot: SlotView| slot.session_id == session
}

/// The slots of a session in a state.
pub open spec fn of_state(session: Seq<char>, state: Seq<char>) -> spec_fn(SlotView) -> bool {
    |slot: SlotView| slot.session_id == session && slot.temporal_state == state
}

/// A text holds a key exactly where it mentions it.
pub proof fn lemma_holding_is_mentioning(text: Seq<char>, key: Seq<char>)
    ensures
        holds(text, key) <==> mentions(text, key),
{
    assert forall|a: char, b: char| #[trigger] alike(a, b) == is_same_letter(a, b) by {
        assert('A' <= a <= 'Z' ==> ascii_lower(a) as int == a as int + 32);
        assert('A' <= b <= 'Z' ==> ascii_lower(b) as int == b as int + 32);
    }
    if holds(text, key) {
        let i = choose|i: int| alike_at(text, key, i);
        assert forall|k: int| 0 <= k < key.len() implies is_same_letter(
            #[trigger] key[k],
            text[i + k],
        ) by {
            assert(alike(key[k], text[i + k]));
        }
        assert(mentions_at(text, key, i));
    }
    if mentions(text, key) {
        let i = choose|i: int| 0 <= i <= text.len() - key.len() && #[trigger] mentions_at(text, key, i);
        assert forall|k: int| 0 <= k < key.len() implies alike(#[trigger] key[k], text[i + k]) by {
            assert(is_same_letter(key[k], text[i + k]));
        }
        assert(alike_at(text, key, i));
    }
}

/// A slot is a hit exactly where its log or lesson mentions the key.
proof fn lemma_hit(slot: SlotView, session: Seq<char>, key: Seq<char>)
    requires
        slot.session_id == session,
    ensures
        hit(slot, key) == mentioning(session, key)(slot),
{
    if let Some(log) = slot.raw_log {
        lemma_holding_is_mentioning(log, key);
    }
    if let Some(lesson) = slot.learning_summary {
        lemma_holding_is_mentioning(lesson, key);
    }
}

/// The hits of a session are its slots that mention the key.
proof fn lemma_hits_listed(slots: Seq<SlotView>, session: Seq<char>, key: Seq<char>)
    ensures
        lists(hits(selected(slots, Query::all(session)), key), slots, mentioning(session, key)),
        hits(selected(slots, Query::all(session)), key).len() == count(
            slots,
            mentioning(session, key),
        ),
    decreases slots.len(),
{
    let query = Query::all(session);
    let which = mentioning(session, key);
    if slots.len() == 0 {
        assert(selected(slots, query).len() == 0);
        assert(hits(selected(slots, query), key) =~= selected(slots, query));
        lemma_lists_of_nothing(hits(selected(slots, query), key), slots, which);
    } else {
        let front = slots.drop_last();
        let slot = slots.last();
        lemma_hits_listed(front, session, key);
        let before = selected(front, query);
        if slot.session_id == session {
            assert(before.push(slot).drop_last() =~= before);
            lemma_hit(slot, session, key);
        }
        lemma_lists_further(hits(before, key), slots, which);
    }
}

/// Where there are no slots, none is listed.
proof fn lemma_lists_of_nothing(
    out: Seq<SlotView>,
    slots: Seq<SlotView>,
    which: spec_fn(SlotView) -> bool,
)
    requires
        out.len() == 0,
        slots.len() == 0,
    ensures
        lists(out, slots, which),
{
    assert(is_listed(out, slots, which, Seq::<int>::empty()));
}

/// A search without a limit finds every slot of the session, in whatever state, whose log or lesson
/// mentions the query but for the case of ASCII letters, and no other, newest first. With a limit it finds
/// the first so many of these.
pub proof fn lemma_search_finds_all(state: State, session: Seq<char>, key: Seq<char>, limit: int)
    ensures
        limit < 0 ==> lists(
            search(state, session, key, limit).reverse(),
            state.slots,
            mentioning(session, key),
        ),
        limit < 0 ==> search(state, session, key, limit).len() == count(
            state.slots,
            mentioning(session, key),
        ),
        limit >= 0 ==> search(state, session, key, limit).len() == if limit < count(
            state.slots,
            mentioning(session, key),
        ) {
            limit
        } else {
            count(state.slots, mentioning(session, key)) as int
        },
        limit >= 0 ==> search(state, session, key, limit).is_prefix_of(
            search(state, session, key, -1),
        ),
{
    lemma_hits_listed(state.slots, session, key);
    let found = hits(session_slots(state, session), key);
    let all = search(state, session, key, -1);
    let some = search(state, session, key, limit);
    assert(all == found.reverse());
    assert(found.reverse().reverse() =~= found);
    if limit >= 0 {
        assert(some =~= all.take(some.len() as int));
    }
}

/// A search fails exactly where its query takes more than 49998 bytes in UTF-8, the session has a slot to
/// hold it against, and something is to be found.
pub proof fn lemma_when_a_search_fails(state: State, session: Seq<char>, key: Seq<char>, limit: int)
    ensures
        search_fails(state, session, key, limit) <==> {
            &&& encode_utf8(key).len() > 49998
            &&& exists|i: int| 0 <= i < state.slots.len() && (#[trigger] state.slots[i]).session_id == session
            &&& limit != 0
        },
{
    let query = Query::all(session);
    let slots = session_slots(state, session);
    lemma_selected_picks(state.slots, query);
    if slots.len() > 0 {
        let i = choose|i: int| 0 <= i < state.slots.len() && state.slots[i] == slots[0];
        assert(query.picks(slots[0]));
        assert(state.slots[i].session_id == session);
    }
    if exists|i: int| 0 <= i < state.slots.len() && (#[trigger] state.slots[i]).session_id == session {
        let i = choose|i: int| 0 <= i < state.slots.len() && (#[trigger] state.slots[i]).session_id == session;
        lemma_picked_is_selected(state.slots, query, i);
    }
}

/// A history without a limit tells every slot of the session, in whatever state, and no other, newest
/// first. With a limit it tells the first so many of these.
pub proof fn lemma_history_tells_all(state: State, session: Seq<char>, limit: int)
    ensures
        limit < 0 ==> lists(
            history(state, session, limit).reverse(),
            state.slots,
            of_session(session),
        ),
        limit < 0 ==> history(state, session, limit).len() == count(state.slots, of_session(session)),
        limit >= 0 ==> history(state, session, limit).len() == if limit < count(
            state.slots,
            of_session(session),
        ) {
            limit
        } else {
            count(state.slots, of_session(session)) as int
        },
        limit >= 0 ==> history(state, session, limit).is_prefix_of(history(state, session, -1)),
{
    let query = Query::all(session);
    assert forall|slot: SlotView| #[trigger] of_session(session)(slot) == query.picks(slot) by {}
    lemma_selected_lists(state.slots, query, of_session(session));
    let found = session_slots(state, session);
    let all = history(state, session, -1);
    let some = history(state, session, limit);
    assert(all == found.reverse());
    assert(found.reverse().reverse() =~= found);
    if limit >= 0 {
        assert(some =~= all.take(some.len() as int));
    }
}

/// Whether one list is another with the slots that have one of the ids moved to the past.
pub open spec fn is_moved(after: Seq<SlotView>, before: Seq<SlotView>, ids: Seq<i64>) -> bool {
    &&& after.len() == before.len()
    &&& forall|k: int|
        0 <= k < before.len() ==> #[trigger] after[k] == if ids.contains(before[k].id) {
            moved_to_past(before[k])
        } else {
            before[k]
        }
}

/// Archiving slots leaves the hits what they were, but for the state of those that were archived.
proof fn lemma_archived_hits(slots: Seq<SlotView>, ids: Seq<i64>, session: Seq<char>, key: Seq<char>)
    ensures
        is_moved(
            selected(archived(slots, ids), Query::all(session)),
            selected(slots, Query::all(session)),
            ids,
        ),
        is_moved(
            hits(selected(archived(slots, ids), Query::all(session)), key),
            hits(selected(slots, Query::all(session)), key),
            ids,
        ),
    decreases slots.len(),
{
    let query = Query::all(session);
    if slots.len() > 0 {
        let front = slots.drop_last();
        let slot = slots.last();
        lemma_archived_hits(front, ids, session, key);
        let now = archived(slots, ids);
        assert(now.drop_last() =~= archived(front, ids));
        let before = selected(front, query);
        let after = selected(archived(front, ids), query);
        assert(now.last() == if ids.contains(slot.id) {
            moved_to_past(slot)
        } else {
            slot
        });
        if slot.session_id == session {
            assert(before.push(slot).drop_last() =~= before);
            assert(after.push(now.last()).drop_last() =~= after);
            lemma_hit(slot, session, key);
            lemma_hit(now.last(), session, key);
        }
    } else {
        assert(archived(slots, ids).len() == 0);
        assert(selected(slots, query).len() == 0);
        assert(selected(archived(slots, ids), query).len() == 0);
    }
}

/// What is archived is still found and still told: archiving slots changes what a search finds and what a
/// history tells in nothing but the state of those slots.
pub proof fn lemma_archived_is_found(
    state: State,
    ids: Seq<i64>,
    session: Seq<char>,
    key: Seq<char>,
    limit: int,
)
    ensures
        ({
            let after = state.step(ChangeView::ArchiveSlots(ids));
            &&& is_moved(
                search(after, session, key, limit),
                search(state, session, key, limit),
                ids,
            )
            &&& is_moved(history(after, session, limit), history(state, session, limit), ids)
        }),
{
    lemma_archived_hits(state.slots, ids, session, key);
    let after = state.step(ChangeView::ArchiveSlots(ids));
    let a = hits(session_slots(state, session), key);
    let b = hits(session_slots(after, session), key);
    assert(is_moved(b.reverse(), a.reverse(), ids)) by {
        assert forall|k: int| 0 <= k < a.len() implies #[trigger] b.reverse()[k] == if ids.contains(
            a.reverse()[k].id,
        ) {
            moved_to_past(a.reverse()[k])
        } else {
            a.reverse()[k]
        } by {
            assert(b[b.len() - 1 - k] == b.reverse()[k]);
        }
    }
    let c = session_slots(state, session);
    let d = session_slots(after, session);
    assert(is_moved(d.reverse(), c.reverse(), ids)) by {
        assert forall|k: int| 0 <= k < c.len() implies #[trigger] d.reverse()[k] == if ids.contains(
            c.reverse()[k].id,
        ) {
            moved_to_past(c.reverse()[k])
        } else {
            c.reverse()[k]
        } by {
            assert(d[d.len() - 1 - k] == d.reverse()[k]);
        }
    }
    assert(is_moved(search(after, session, key, limit), search(state, session, key, limit), ids)) by {
        let x = search(state, session, key, limit);
        let y = search(after, session, key, limit);
        assert forall|k: int| 0 <= k < x.len() implies #[trigger] y[k] == if ids.contains(x[k].id) {
            moved_to_past(x[k])
        } else {
            x[k]
        } by {
            assert(y[k] == b.reverse()[k]);
        }
    }
    assert(is_moved(history(after, session, limit), history(state, session, limit), ids)) by {
        let x = history(state, session, limit);
        let y = history(after, session, limit);
        assert forall|k: int| 0 <= k < x.len() implies #[trigger] y[k] == if ids.contains(x[k].id) {
            moved_to_past(x[k])
        } else {
            x[k]
        } by {
            assert(y[k] == d.reverse()[k]);
        }
    }
}

/// The logs of what a query selects measure what those of the slots that it picks do.
proof fn lemma_session_chars(slots: Seq<SlotView>, session: Seq<char>)
    ensures
        total_weight(selected(slots, Query::all(session))) == log_chars(slots, of_session(session)),
    decreases slots.len(),
{
    if slots.len() > 0 {
        lemma_session_chars(slots.drop_last(), session);
        let before = selected(slots.drop_last(), Query::all(session));
        assert(before.push(slots.last()).drop_last() =~= before);
    }
}

/// How many slots are counted in a state.
proof fn lemma_counted(state: State, session: Seq<char>, temporal_state: Seq<char>)
    ensures
        count_in(state, session, temporal_state) == count(
            state.slots,
            of_state(session, temporal_state),
        ),
{
    let query = Query::in_state(session, temporal_state);
    assert forall|slot: SlotView| #[trigger]
        of_state(session, temporal_state)(slot) == query.picks(slot) by {}
    lemma_selected_lists(state.slots, query, of_state(session, temporal_state));
}

/// A summary tells how many slots of the session there are in each state, how many they are together, and
/// the tokens that the logs of all of them come to.
pub proof fn lemma_summary_counts(state: State, session: Seq<char>)
    ensures
        ({
            let present = count(state.slots, of_state(session, "PRESENT"@)) as int;
            let past = count(state.slots, of_state(session, "PAST"@)) as int;
            let future = count(state.slots, of_state(session, "FUTURE"@)) as int;
            let tokens = estimated_tokens(log_chars(state.slots, of_session(session)) as int);
            summary(state, session) == "Session '"@ + session + "': "@ + decimal(
                present + past + future,
            ) + " total timeline slots | "@ + decimal(present) + " PRESENT (active) | "@ + decimal(past)
                + " PAST (archived) | "@ + decimal(future) + " FUTURE (constraints) | ~"@ + decimal(tokens)
                + " estimated tokens in raw_log data."@
        }),
{
    lemma_counted(state, session, "PRESENT"@);
    lemma_counted(state, session, "PAST"@);
    lemma_counted(state, session, "FUTURE"@);
    lemma_session_chars(state.slots, session);
    assert(session_tokens(state, session) == estimated_tokens(
        log_chars(state.slots, of_session(session)) as int,
    ));
}

} // verus!

//! Looking at a session's whole timeline: its history, searches in it, and counts.
use vstd::prelude::*;
use crate::census::lists;
use crate::finding::{lemma_history_tells_all, lemma_search_finds_all, mentioning, of_session};
use crate::memory::{lemma_selected_weight, session_slots, total_weight, Memory, State};
use crate::keywords::{holds, is_held};
use crate::slot::{
    at_places, lemma_selected_picks, lemma_states_differ, selected, views, Query, Selection, SlotView, TimelineSlot, FUTURE, PAST,
    PRESENT,
};
use crate::text::{byte_len, decimal, push_count, push_decimal, size};
use crate::tokens::{estimate_tokens, estimated_tokens};

verus! {

/// How many bytes a query may take.
pub const MAX_QUERY_BYTES: usize = 49998;

/// The first `limit` of a list of slots, or all of them where `limit` is negative.
pub open spec fn limited(slots: Seq<SlotView>, limit: int) -> Seq<SlotView> {
    if 0 <= limit < slots.len() {
        slots.take(limit)
    } else {
        slots
    }
}

/// The newest slots of a session, newest first.
pub open spec fn history(state: State, session: Seq<char>, limit: int) -> Seq<SlotView> {
    limited(session_slots(state, session).reverse(), limit)
}

/// Whether a slot's log or lesson holds a query, without regard to the case of ASCII letters.
pub open spec fn hit(slot: SlotView, query: Seq<char>) -> bool {
    ||| slot.raw_log is Some && holds(slot.raw_log->0, query)
    ||| slot.learning_summary is Some && holds(slot.learning_summary->0, query)
}

/// The slots of a list that hold a query.
pub open spec fn hits(slots: Seq<SlotView>, query: Seq<char>) -> Seq<SlotView>
    decreases slots.len(),
{
    if slots.len() == 0 {
        seq![]
    } else {
        let before = hits(slots.drop_last(), query);
        if hit(slots.last(), query) {
            before.push(slots.last())
        } else {
            before
        }
    }
}

/// The newest slots of a session whose log or lesson holds `query`, newest first.
pub open spec fn search(state: State, session: Seq<char>, query: Seq<char>, limit: int) -> Seq<SlotView> {
    limited(hits(session_slots(state, session), query).reverse(), limit)
}

/// Whether a search fails: its query is too long, and there is something to hold it against.
pub open spec fn search_fails(state: State, session: Seq<char>, query: Seq<char>, limit: int) -> bool {
    &&& byte_len(query) > MAX_QUERY_BYTES
    &&& session_slots(state, session).len() > 0
    &&& limit != 0
}

/// Why a search fails.
#[derive(Debug)]
pub enum SearchError {
    /// The query takes more bytes than it may.
    PatternTooComplex,
}

impl SearchError {
    /// What a failed search is answered.
    pub fn message(&self) -> (text: String)
        ensures
            text@ == "error returned from database: (code: 1) LIKE or GLOB pattern too complex"@,
    {
        "error returned from database: (code: 1) LIKE or GLOB pattern too complex".to_owned()
    }
}

/// Copies of the slots at the given places, last place first, and no more than `limit` where that is
/// not negative.
fn copy_newest(memory: &Memory, at: &Vec<usize>, limit: i64) -> (copies: Vec<TimelineSlot>)
    requires
        forall|k: int| 0 <= k < at@.len() ==> #[trigger] at@[k] < memory@.slots.len(),
    ensures
        views(copies@) == limited(at_places(memory@.slots, at@).reverse(), limit as int),
{
    let ghost newest = at_places(memory@.slots, at@).reverse();
    let slots = memory.slots();
    let wanted: usize = if limit < 0 || limit as u64 > at.len() as u64 {
        at.len()
    } else {
        limit as usize
    };
    let mut copies: Vec<TimelineSlot> = Vec::new();
    let mut k: usize = 0;
    while k < wanted
        invariant
            k <= wanted <= at@.len(),
            views(slots@) == memory@.slots,
            newest == at_places(memory@.slots, at@).reverse(),
            forall|j: int| 0 <= j < at@.len() ==> #[trigger] at@[j] < memory@.slots.len(),
            copies@.len() == k,
            forall|j: int| 0 <= j < k ==> (#[trigger] copies@[j])@ == newest[j],
        decreases wanted - k,
    {
        let place: usize = at[at.len() - 1 - k];
        assert(place < memory@.slots.len());
        assert(newest[k as int] == slots@[place as int]@);
        copies.push(slots[place].duplicate());
        k += 1;
    }
    assert(views(copies@) =~= limited(newest, limit as int));
    copies
}

/// The newest slots of a session in whatever state, newest first; all of them where `limit` is
/// negative.
pub fn get_timeline(memory: &Memory, session_id: &str, limit: i64) -> (slots: Vec<TimelineSlot>)
    ensures
        views(slots@) == history(memory@, session_id@, limit as int),
        limit < 0 ==> lists(views(slots@).reverse(), memory@.slots, of_session(session_id@)),
{
    proof {
        lemma_history_tells_all(memory@, session_id@, limit as int);
    }
    let selection = Selection { session: session_id, state: None, ids: None, logged: false };
    let at = memory.find(&selection);
    copy_newest(memory, &at, limit)
}

/// What is selected of a session stands in the order of its positions.
proof fn lemma_selected_in_order(slots: Seq<SlotView>, query: Query)
    requires
        forall|i: int, j: int|
            0 <= i < j < slots.len() && (#[trigger] slots[i]).session_id == (
            #[trigger] slots[j]).session_id ==> slots[i].sequence_order <= slots[j].sequence_order,
    ensures
        forall|i: int, j: int|
            0 <= i < j < selected(slots, query).len() ==> (
            #[trigger] selected(slots, query)[i]).sequence_order <= (
            #[trigger] selected(slots, query)[j]).sequence_order,
    decreases slots.len(),
{
    if slots.len() > 0 {
        let front = slots.drop_last();
        let before = selected(front, query);
        let all = selected(slots, query);
        lemma_selected_in_order(front, query);
        lemma_selected_picks(front, query);
        assert forall|i: int, j: int| 0 <= i < j < all.len() implies (
        #[trigger] all[i]).sequence_order <= (#[trigger] all[j]).sequence_order by {
            if j < before.len() {
                assert(all[i] == before[i] && all[j] == before[j]);
            } else {
                assert(all[i] == before[i]);
                let k = choose|k: int| 0 <= k < front.len() && front[k] == before[i];
                assert(slots[k] == before[i]);
                assert(slots[slots.len() - 1] == all[j]);
            }
        }
    }
}

/// A history stands newest first.
pub proof fn lemma_history_is_newest_first(state: State, session: Seq<char>, limit: int)
    requires
        state.valid(),
    ensures
        forall|i: int, j: int|
            0 <= i < j < history(state, session, limit).len() ==> (
            #[trigger] history(state, session, limit)[i]).sequence_order >= (
            #[trigger] history(state, session, limit)[j]).sequence_order,
{
    let slots = session_slots(state, session);
    let shown = history(state, session, limit);
    lemma_selected_in_order(state.slots, Query::all(session));
    assert forall|i: int, j: int| 0 <= i < j < shown.len() implies (
    #[trigger] shown[i]).sequence_order >= (#[trigger] shown[j]).sequence_order by {
        assert(shown[i] == slots[slots.len() - 1 - i]);
        assert(shown[j] == slots[slots.len() - 1 - j]);
    }
}

/// `hit` on a slot.
fn is_hit(slot: &TimelineSlot, query: &str) -> (yes: bool)
    ensures
        yes == hit(slot@, query@),
{
    if let Some(log) = &slot.raw_log {
        if is_held(log.as_str(), query) {
            return true;
        }
    }
    if let Some(lesson) = &slot.learning_summary {
        if is_held(lesson.as_str(), query) {
            return true;
        }
    }
    false
}

/// The places among `at` whose slots hold a query.
fn narrow(memory: &Memory, at: &Vec<usize>, query: &str) -> (found: Vec<usize>)
    requires
        forall|k: int| 0 <= k < at@.len() ==> #[trigger] at@[k] < memory@.slots.len(),
    ensures
        at_places(memory@.slots, found@) == hits(at_places(memory@.slots, at@), query@),
        forall|k: int| 0 <= k < found@.len() ==> #[trigger] found@[k] < memory@.slots.len(),
{
    let ghost picked = at_places(memory@.slots, at@);
    let slots = memory.slots();
    let mut found: Vec<usize> = Vec::new();
    let mut k: usize = 0;
    assert(at_places(memory@.slots, found@) =~= hits(picked.take(0), query@));
    while k < at.len()
        invariant
            k <= at@.len(),
            views(slots@) == memory@.slots,
            picked == at_places(memory@.slots, at@),
            forall|j: int| 0 <= j < at@.len() ==> #[trigger] at@[j] < memory@.slots.len(),
            forall|j: int| 0 <= j < found@.len() ==> #[trigger] found@[j] < memory@.slots.len(),
            at_places(memory@.slots, found@) == hits(picked.take(k as int), query@),
        decreases at@.len() - k,
    {
        let ghost done = at_places(memory@.slots, found@);
        let place: usize = at[k];
        assert(place < memory@.slots.len());
        assert(picked[k as int] == slots@[place as int]@);
        assert(picked.take(k + 1).drop_last() =~= picked.take(k as int));
        assert(picked.take(k + 1).last() == picked[k as int]);
        if is_hit(&slots[place], query) {
            found.push(place);
            assert(at_places(memory@.slots, found@) =~= done.push(picked[k as int]));
        }
        k += 1;
    }
    assert(picked.take(k as int) =~= picked);
    found
}

/// The newest slots of a session whose log or lesson holds `query_str`, newest first; all of them where
/// `limit` is negative.
pub fn search_timeline(memory: &Memory, session_id: &str, query_str: &str, limit: i64) -> (result: Result<
    Vec<TimelineSlot>,
    SearchError,
>)
    ensures
        match result {
            Ok(slots) => {
                &&& !search_fails(memory@, session_id@, query_str@, limit as int)
                &&& views(slots@) == search(memory@, session_id@, query_str@, limit as int)
                &&& limit < 0 ==> lists(
                    views(slots@).reverse(),
                    memory@.slots,
                    mentioning(session_id@, query_str@),
                )
            },
            Err(SearchError::PatternTooComplex) => search_fails(
                memory@,
                session_id@,
                query_str@,
                limit as int,
            ),
        },
{
    let selection = Selection { session: session_id, state: None, ids: None, logged: false };
    let at = memory.find(&selection);
    assert(at_places(memory@.slots, at@).len() == at@.len());
    if size(query_str) > MAX_QUERY_BYTES && at.len() > 0 && limit != 0 {
        return Err(SearchError::PatternTooComplex);
    }
    proof {
        lemma_search_finds_all(memory@, session_id@, query_str@, limit as int);
    }
    let found = narrow(memory, &at, query_str);
    Ok(copy_newest(memory, &found, limit))
}

/// How many slots a session has in a state.
pub open spec fn count_in(state: State, session: Seq<char>, temporal_state: Seq<char>) -> int {
    selected(state.slots, Query::in_state(session, temporal_state)).len() as int
}

/// The tokens that all logs of a session come to.
pub open spec fn session_tokens(state: State, session: Seq<char>) -> int {
    estimated_tokens(total_weight(session_slots(state, session)) as int)
}

/// A summary with the given numbers.
pub open spec fn summary_of(session: Seq<char>, present: int, past: int, future: int, tokens: int) -> Seq<
    char,
> {
    "Session '"@ + session + "': "@ + decimal(present + past + future) + " total timeline slots | "@
        + decimal(present) + " PRESENT (active) | "@ + decimal(past) + " PAST (archived) | "@ + decimal(
        future,
    ) + " FUTURE (constraints) | ~"@ + decimal(tokens) + " estimated tokens in raw_log data."@
}

/// The summary of a session: how many slots it has in each state, and what its logs come to.
pub open spec fn summary(state: State, session: Seq<char>) -> Seq<char> {
    summary_of(
        session,
        count_in(state, session, PRESENT@),
        count_in(state, session, PAST@),
        count_in(state, session, FUTURE@),
        session_tokens(state, session),
    )
}

/// No slot is counted in two states.
proof fn lemma_counts(slots: Seq<SlotView>, session: Seq<char>)
    ensures
        selected(slots, Query::in_state(session, PRESENT@)).len() + selected(
            slots,
            Query::in_state(session, PAST@),
        ).len() + selected(slots, Query::in_state(session, FUTURE@)).len() <= selected(
            slots,
            Query::all(session),
        ).len(),
        selected(slots, Query::all(session)).len() <= slots.len(),
        (forall|i: int| 0 <= i < slots.len() ==> (#[trigger] slots[i]).valid()) ==> selected(
            slots,
            Query::in_state(session, PRESENT@),
        ).len() + selected(slots, Query::in_state(session, PAST@)).len() + selected(
            slots,
            Query::in_state(session, FUTURE@),
        ).len() == selected(slots, Query::all(session)).len(),
    decreases slots.len(),
{
    lemma_states_differ();
    if slots.len() > 0 {
        lemma_counts(slots.drop_last(), session);
        if forall|i: int| 0 <= i < slots.len() ==> (#[trigger] slots[i]).valid() {
            assert(slots[slots.len() - 1].valid());
            assert forall|i: int| 0 <= i < slots.drop_last().len() implies (
            #[trigger] slots.drop_last()[i]).valid() by {
                assert(slots[i].valid());
            }
        }
    }
}

/// Every slot of a session is in one of the three states, so that the counts add up to their number.
pub proof fn lemma_counts_add_up(state: State, session: Seq<char>)
    requires
        state.valid(),
    ensures
        count_in(state, session, PRESENT@) + count_in(state, session, PAST@) + count_in(
            state,
            session,
            FUTURE@,
        ) == session_slots(state, session).len(),
{
    lemma_counts(state.slots, session);
}

/// `summary_of` on numbers.
pub fn write_summary(session: &str, present: usize, past: usize, future: usize, tokens: i64) -> (text:
    String)
    requires
        present + past + future <= usize::MAX,
    ensures
        text@ == summary_of(
            session@,
            present as int,
            past as int,
            future as int,
            tokens as int,
        ),
{
    let mut text = "Session '".to_owned();
    text.append(session);
    text.append("': ");
    push_count(&mut text, present + past + future);
    text.append(" total timeline slots | ");
    push_count(&mut text, present);
    text.append(" PRESENT (active) | ");
    push_count(&mut text, past);
    text.append(" PAST (archived) | ");
    push_count(&mut text, future);
    text.append(" FUTURE (constraints) | ~");
    push_decimal(&mut text, tokens);
    text.append(" estimated tokens in raw_log data.");
    text
}

/// How many slots a session has in a state.
fn count_slots(memory: &Memory, session: &str, temporal_state: &str) -> (n: usize)
    ensures
        n == count_in(memory@, session@, temporal_state@),
{
    let selection = Selection { session, state: Some(temporal_state), ids: None, logged: false };
    let at = memory.find(&selection);
    assert(at_places(memory@.slots, at@).len() == at@.len());
    at.len()
}

/// A summary of a session, with the number of slots in each state.
pub fn get_session_summary(memory: &Memory, session_id: &str) -> (text: String)
    requires
        memory@.valid(),
    ensures
        text@ == summary(memory@, session_id@),
{
    let present: usize = count_slots(memory, session_id, PRESENT);
    let past: usize = count_slots(memory, session_id, PAST);
    let future: usize = count_slots(memory, session_id, FUTURE);
    let selection = Selection { session: session_id, state: None, ids: None, logged: false };
    let at = memory.find(&selection);
    assert(at_places(memory@.slots, at@).len() == at@.len());
    proof {
        lemma_counts_add_up(memory@, session_id@);
        lemma_selected_weight(memory@.slots, selection@);
    }
    let total: usize = at.len();
    assert(present + past + future == total);
    let tokens: i64 = estimate_tokens(memory.weight_at(&at));
    write_summary(session_id, present, past, future, tokens)
}

} // verus!

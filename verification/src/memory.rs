//! The timeline that operations read and change, and the changes that they make to it.
use vstd::prelude::*;
use crate::slot::{
    at_places, ids_of, is_among, places, selected, views, without, Query, Selection, SlotView, TimelineSlot,
    DERIVED, FUTURE, PAST, PRESENT, PROSPECTIVE,
};
use crate::text::{chars_of, given, owned, same_text, shown};

verus! {

/// Content that slots refer to: stored once, never changed.
#[derive(Debug)]
pub struct MemoryContent {
    pub id: i64,
    pub raw_log: String,
    pub file_context: Option<String>,
    pub tool_payload: Option<String>,
}

/// Content as a value of the specification.
#[verifier::ext_equal]
pub struct ContentView {
    pub id: i64,
    pub raw_log: Seq<char>,
    pub file_context: Option<Seq<char>>,
    pub tool_payload: Option<Seq<char>>,
}

impl View for MemoryContent {
    type V = ContentView;

    open spec fn view(&self) -> ContentView {
        ContentView {
            id: self.id,
            raw_log: self.raw_log@,
            file_context: shown(self.file_context),
            tool_payload: shown(self.tool_payload),
        }
    }
}

/// A change to what is stored.
#[derive(Debug)]
pub enum Change {
    /// Content is added.
    StoreContent(MemoryContent),
    /// A slot is added at the end of the timeline.
    InsertSlot(TimelineSlot),
    /// The slots with these ids move to the past.
    ArchiveSlots(Vec<i64>),
}

/// A change as a value of the specification.
pub enum ChangeView {
    StoreContent(ContentView),
    InsertSlot(SlotView),
    ArchiveSlots(Seq<i64>),
}

impl View for Change {
    type V = ChangeView;

    open spec fn view(&self) -> ChangeView {
        match *self {
            Change::StoreContent(content) => ChangeView::StoreContent(content@),
            Change::InsertSlot(slot) => ChangeView::InsertSlot(slot@),
            Change::ArchiveSlots(ids) => ChangeView::ArchiveSlots(ids@),
        }
    }
}

/// The changes of a list.
pub open spec fn change_views(changes: Seq<Change>) -> Seq<ChangeView> {
    Seq::new(changes.len(), |i: int| changes[i]@)
}

/// `slots` with those that have one of `ids` moved to the past.
pub open spec fn archived(slots: Seq<SlotView>, ids: Seq<i64>) -> Seq<SlotView> {
    Seq::new(
        slots.len(),
        |i: int|
            if ids.contains(slots[i].id) {
                slots[i].past()
            } else {
                slots[i]
            },
    )
}

/// The number of characters of a log up to the first NUL, which is how a log is measured.
pub open spec fn measured(log: Seq<char>) -> nat
    decreases log.len(),
{
    if log.len() == 0 || log[0] == '\0' {
        0
    } else {
        1 + measured(log.drop_first())
    }
}

/// The measure of a slot's log, which is nothing where it has none.
pub open spec fn weight(slot: SlotView) -> nat {
    match slot.raw_log {
        None => 0,
        Some(log) => measured(log),
    }
}

/// The measure of all logs of a list of slots.
pub open spec fn total_weight(slots: Seq<SlotView>) -> nat
    decreases slots.len(),
{
    if slots.len() == 0 {
        0
    } else {
        total_weight(slots.drop_last()) + weight(slots.last())
    }
}

/// The highest position that a session's slots have taken.
pub open spec fn highest(slots: Seq<SlotView>, session: Seq<char>) -> Option<int>
    decreases slots.len(),
{
    if slots.len() == 0 {
        None
    } else {
        let before = highest(slots.drop_last(), session);
        let slot = slots.last();
        if slot.session_id != session {
            before
        } else {
            match before {
                Some(n) if n >= slot.sequence_order => before,
                _ => Some(slot.sequence_order as int),
            }
        }
    }
}

/// A memory as a value of the specification.
#[verifier::ext_equal]
pub struct State {
    /// The timeline, oldest first within each session.
    pub slots: Seq<SlotView>,
    /// The id that the next slot gets.
    pub next_slot_id: int,
    /// The id that the next content gets.
    pub next_content_id: int,
    /// The changes made so far.
    pub journal: Seq<ChangeView>,
}

impl State {
    /// The invariant of a memory.
    pub open spec fn valid(self) -> bool {
        &&& i64::MIN <= self.next_slot_id <= i64::MAX
        &&& i64::MIN <= self.next_content_id <= i64::MAX
        &&& total_weight(self.slots) <= i64::MAX
        &&& forall|i: int| 0 <= i < self.slots.len() ==> (#[trigger] self.slots[i]).valid()
        &&& forall|i: int|
            0 <= i < self.slots.len() ==> (#[trigger] self.slots[i]).id < self.next_slot_id
        &&& forall|i: int|
            0 <= i < self.slots.len() && (#[trigger] self.slots[i]).content_id is Some
                ==> self.slots[i].content_id->0 < self.next_content_id
        &&& forall|i: int|
            0 <= i < self.journal.len() && (#[trigger] self.journal[i]) is StoreContent
                ==> self.journal[i]->StoreContent_0.id < self.next_content_id
        &&& forall|i: int, j: int|
            0 <= i < j < self.slots.len() ==> (#[trigger] self.slots[i]).id != (
            #[trigger] self.slots[j]).id
        &&& forall|i: int, j: int|
            0 <= i < j < self.slots.len() && (#[trigger] self.slots[i]).session_id == (
            #[trigger] self.slots[j]).session_id ==> self.slots[i].sequence_order
                <= self.slots[j].sequence_order
    }

    /// Whether ids and positions last for `n` more slots.
    pub open spec fn room(self, n: int) -> bool {
        &&& n <= i64::MAX
        &&& self.next_slot_id + n <= i64::MAX
        &&& forall|i: int|
            0 <= i < self.slots.len() ==> (#[trigger] self.slots[i]).sequence_order + n <= i64::MAX
    }

    /// Whether a log can be stored: ids, positions and the measure of all logs last for it.
    pub open spec fn takes(self, raw_log: Seq<char>) -> bool {
        &&& self.room(1)
        &&& self.next_content_id < i64::MAX
        &&& total_weight(self.slots) + measured(raw_log) <= i64::MAX
    }

    /// The state after a change.
    pub open spec fn step(self, change: ChangeView) -> State {
        let journal = self.journal.push(change);
        match change {
            ChangeView::StoreContent(content) => State {
                next_content_id: content.id + 1,
                journal,
                ..self
            },
            ChangeView::InsertSlot(slot) => State {
                slots: self.slots.push(slot),
                next_slot_id: slot.id + 1,
                journal,
                ..self
            },
            ChangeView::ArchiveSlots(ids) => State {
                slots: archived(self.slots, ids),
                journal,
                ..self
            },
        }
    }

    /// The position that the next slot of a session gets.
    pub open spec fn next_order(self, session: Seq<char>) -> int {
        match highest(self.slots, session) {
            None => 1,
            Some(n) => n + 1,
        }
    }

    /// The next slot of a session, for a constraint.
    pub open spec fn future_slot(self, session: Seq<char>, lesson: Seq<char>, kind: Seq<char>) -> SlotView {
        SlotView {
            id: self.next_slot_id as i64,
            content_id: None,
            session_id: session,
            sequence_order: self.next_order(session) as i64,
            temporal_state: FUTURE@,
            learning_summary: Some(lesson),
            created_at: None,
            constraint_type: Some(kind),
            raw_log: None,
            file_context: None,
        }
    }

    /// The next slot of a session, for content.
    pub open spec fn present_slot(
        self,
        session: Seq<char>,
        content_id: i64,
        raw_log: Seq<char>,
        file_context: Option<Seq<char>>,
    ) -> SlotView {
        SlotView {
            id: self.next_slot_id as i64,
            content_id: Some(content_id),
            session_id: session,
            sequence_order: self.next_order(session) as i64,
            temporal_state: PRESENT@,
            learning_summary: None,
            created_at: None,
            constraint_type: None,
            raw_log: Some(raw_log),
            file_context,
        }
    }
}

/// The state after changes, one after the other.
pub open spec fn run(state: State, changes: Seq<ChangeView>) -> State
    decreases changes.len(),
{
    if changes.len() == 0 {
        state
    } else {
        run(state, changes.drop_last()).step(changes.last())
    }
}

/// Changes after changes are the changes of both, one after the other.
pub proof fn lemma_run_further(state: State, a: Seq<ChangeView>, b: Seq<ChangeView>)
    ensures
        run(run(state, a), b) == run(state, a + b),
    decreases b.len(),
{
    if b.len() == 0 {
        assert(a + b =~= a);
    } else {
        lemma_run_further(state, a, b.drop_last());
        assert((a + b).drop_last() =~= a + b.drop_last());
    }
}

/// All slots of a session, oldest first.
pub open spec fn session_slots(state: State, session: Seq<char>) -> Seq<SlotView> {
    selected(state.slots, Query::all(session))
}

/// The highest position is that of a slot of the session, and no slot of the session exceeds it.
pub proof fn lemma_highest(slots: Seq<SlotView>, session: Seq<char>)
    ensures
        match highest(slots, session) {
            None => forall|i: int|
                0 <= i < slots.len() ==> (#[trigger] slots[i]).session_id != session,
            Some(n) => {
                &&& exists|i: int|
                    0 <= i < slots.len() && (#[trigger] slots[i]).session_id == session
                        && slots[i].sequence_order == n
                &&& forall|i: int|
                    0 <= i < slots.len() && (#[trigger] slots[i]).session_id == session
                        ==> slots[i].sequence_order <= n
            },
        },
    decreases slots.len(),
{
    if slots.len() > 0 {
        let before = slots.drop_last();
        lemma_highest(before, session);
        assert forall|i: int| 0 <= i < slots.len() implies (#[trigger] slots[i]) == (if i
            < before.len() {
            before[i]
        } else {
            slots.last()
        }) by {}
        if highest(before, session) is Some {
            let n = highest(before, session)->0;
            let i = choose|i: int|
                0 <= i < before.len() && (#[trigger] before[i]).session_id == session
                    && before[i].sequence_order == n;
            assert(slots[i] == before[i]);
        }
        assert(slots[slots.len() - 1] == slots.last());
    }
}

/// A session's next slot stands behind all its slots.
pub proof fn lemma_next_slot_is_last(state: State, session: Seq<char>, i: int)
    requires
        0 <= i < state.slots.len(),
        state.slots[i].session_id == session,
    ensures
        state.slots[i].sequence_order < state.next_order(session),
{
    lemma_highest(state.slots, session);
}

/// Moving slots to the past takes them out of what is selected in another state, and nothing else.
pub proof fn lemma_selected_archived(slots: Seq<SlotView>, ids: Seq<i64>, query: Query)
    requires
        query.state is Some,
        query.state->0 != PAST@,
    ensures
        selected(archived(slots, ids), query) == without(selected(slots, query), ids),
    decreases slots.len(),
{
    if slots.len() > 0 {
        let slot = slots.last();
        lemma_selected_archived(slots.drop_last(), ids, query);
        assert(archived(slots, ids).drop_last() =~= archived(slots.drop_last(), ids));
        let before = selected(slots.drop_last(), query);
        if query.picks(slot) {
            assert(before.push(slot).drop_last() =~= before);
        }
    }
}

/// Moving slots to the past leaves the measure of the logs alone.
pub proof fn lemma_archived_weight(slots: Seq<SlotView>, ids: Seq<i64>)
    ensures
        total_weight(archived(slots, ids)) == total_weight(slots),
    decreases slots.len(),
{
    if slots.len() > 0 {
        lemma_archived_weight(slots.drop_last(), ids);
        assert(archived(slots, ids).drop_last() =~= archived(slots.drop_last(), ids));
    }
}

/// A part of the timeline measures no more than the whole.
pub proof fn lemma_take_weight(slots: Seq<SlotView>, n: int)
    requires
        0 <= n <= slots.len(),
    ensures
        total_weight(slots.take(n)) <= total_weight(slots),
    decreases slots.len(),
{
    if n < slots.len() {
        lemma_take_weight(slots.drop_last(), n);
        assert(slots.drop_last().take(n) =~= slots.take(n));
    } else {
        assert(slots.take(n) =~= slots);
    }
}

/// What a query selects measures no more than the whole timeline.
pub proof fn lemma_selected_weight(slots: Seq<SlotView>, query: Query)
    ensures
        total_weight(selected(slots, query)) <= total_weight(slots),
    decreases slots.len(),
{
    if slots.len() > 0 {
        lemma_selected_weight(slots.drop_last(), query);
        let before = selected(slots.drop_last(), query);
        assert(before.push(slots.last()).drop_last() =~= before);
    }
}

/// `measured` on a string, where it fits; a log never measures more than fits.
fn measure(log: &str) -> (n: usize)
    ensures
        n == measured(log@),
{
    let chars = chars_of(log);
    let mut n: usize = 0;
    assert(chars@.skip(0) =~= log@);
    while n < chars.len() && chars[n] != '\0'
        invariant
            n <= chars@.len(),
            measured(log@) == n + measured(chars@.skip(n as int)),
        decreases chars@.len() - n,
    {
        assert(chars@.skip(n as int).drop_first() =~= chars@.skip(n + 1));
        n += 1;
    }
    n
}

/// `weight` on a slot.
pub fn weigh(slot: &TimelineSlot) -> (n: usize)
    ensures
        n == weight(slot@),
{
    match &slot.raw_log {
        None => 0,
        Some(log) => measure(log.as_str()),
    }
}

/// `total_weight` on a list, where it fits.
fn weigh_all(slots: &Vec<TimelineSlot>) -> (total: Option<i64>)
    ensures
        match total {
            Some(n) => n == total_weight(views(slots@)),
            None => total_weight(views(slots@)) > i64::MAX,
        },
{
    let ghost all = views(slots@);
    let mut total: i64 = 0;
    let mut i: usize = 0;
    while i < slots.len()
        invariant
            i <= slots@.len(),
            all == views(slots@),
            0 <= total,
            total == total_weight(all.take(i as int)),
        decreases slots@.len() - i,
    {
        let n: usize = weigh(&slots[i]);
        proof {
            assert(all.take(i + 1).drop_last() =~= all.take(i as int));
            assert(all.take(i + 1).last() == slots@[i as int]@);
            lemma_take_weight(all, i + 1);
        }
        if n as u64 > (i64::MAX - total) as u64 {
            return None;
        }
        total += n as i64;
        i += 1;
    }
    assert(all.take(i as int) =~= all);
    Some(total)
}

/// A memory: a timeline, and the changes made to it.
pub struct Memory {
    slots: Vec<TimelineSlot>,
    next_slot_id: i64,
    next_content_id: i64,
    journal: Vec<Change>,
}

impl View for Memory {
    type V = State;

    closed spec fn view(&self) -> State {
        State {
            slots: views(self.slots@),
            next_slot_id: self.next_slot_id as int,
            next_content_id: self.next_content_id as int,
            journal: change_views(self.journal@),
        }
    }
}

/// Adding a session's next slot keeps the invariant, and takes up one slot's room.
pub proof fn lemma_insert(state: State, slot: SlotView)
    requires
        state.valid(),
        state.room(1),
        slot.valid(),
        slot.id == state.next_slot_id,
        slot.sequence_order == state.next_order(slot.session_id),
        slot.content_id is Some ==> slot.content_id->0 < state.next_content_id,
        total_weight(state.slots) + weight(slot) <= i64::MAX,
    ensures
        state.step(ChangeView::InsertSlot(slot)).valid(),
        forall|n: int|
            #[trigger] state.room(n) && n >= 1 ==> state.step(ChangeView::InsertSlot(slot)).room(n - 1),
{
    let after = state.step(ChangeView::InsertSlot(slot));
    lemma_highest(state.slots, slot.session_id);
    assert(after.slots.drop_last() =~= state.slots);
    assert forall|i: int| 0 <= i < after.slots.len() implies (#[trigger] after.slots[i]) == (if i
        < state.slots.len() {
        state.slots[i]
    } else {
        slot
    }) by {}
    assert forall|n: int| #[trigger] state.room(n) && n >= 1 implies after.room(n - 1) by {
        assert forall|i: int| 0 <= i < after.slots.len() implies (
        #[trigger] after.slots[i]).sequence_order + (n - 1) <= i64::MAX by {
            if i == state.slots.len() {
                match highest(state.slots, slot.session_id) {
                    None => {},
                    Some(k) => {
                        let j = choose|j: int|
                            0 <= j < state.slots.len() && (#[trigger] state.slots[j]).session_id
                                == slot.session_id && state.slots[j].sequence_order == k;
                        assert(state.slots[j].sequence_order + n <= i64::MAX);
                    },
                }
            }
        }
    }
}

/// The position of a session's next slot fits where there is room for it.
pub proof fn lemma_next_order(state: State, session: Seq<char>)
    requires
        state.room(1),
    ensures
        i64::MIN <= state.next_order(session) <= i64::MAX,
{
    lemma_highest(state.slots, session);
    match highest(state.slots, session) {
        None => {},
        Some(k) => {
            let j = choose|j: int|
                0 <= j < state.slots.len() && (#[trigger] state.slots[j]).session_id == session
                    && state.slots[j].sequence_order == k;
            assert(state.slots[j].sequence_order + 1 <= i64::MAX);
        },
    }
}

/// Moving slots to the past keeps the invariant and the room.
pub proof fn lemma_archive(state: State, ids: Seq<i64>)
    requires
        state.valid(),
    ensures
        state.step(ChangeView::ArchiveSlots(ids)).valid(),
        forall|n: int| #[trigger]
            state.room(n) ==> state.step(ChangeView::ArchiveSlots(ids)).room(n),
{
    let after = state.step(ChangeView::ArchiveSlots(ids));
    lemma_archived_weight(state.slots, ids);
    assert forall|i: int| 0 <= i < after.slots.len() implies (#[trigger] after.slots[i]).id
        == state.slots[i].id && after.slots[i].session_id == state.slots[i].session_id
        && after.slots[i].sequence_order == state.slots[i].sequence_order
        && after.slots[i].content_id == state.slots[i].content_id
        && after.slots[i].valid() by {
        assert(state.slots[i].valid());
    }
}

/// A memory just loaded: nothing has changed yet.
pub open spec fn loaded(slots: Seq<SlotView>, next_slot_id: int, next_content_id: int) -> State {
    State { slots, next_slot_id, next_content_id, journal: seq![] }
}

/// `SlotView::valid` on a slot.
fn is_valid(slot: &TimelineSlot) -> (yes: bool)
    ensures
        yes == slot@.valid(),
{
    let state = slot.temporal_state.as_str();
    if !same_text(state, PRESENT) && !same_text(state, PAST) && !same_text(state, FUTURE) {
        return false;
    }
    match &slot.constraint_type {
        None => true,
        Some(kind) => same_text(kind.as_str(), DERIVED) || same_text(kind.as_str(), PROSPECTIVE),
    }
}

/// Whether two slots, the first of which stands before the second, may stand so.
pub open spec fn in_order(a: SlotView, b: SlotView) -> bool {
    a.id != b.id && (a.session_id == b.session_id ==> a.sequence_order <= b.sequence_order)
}

/// Whether all slots before the `n`-th may stand before it.
fn follows_all(slots: &Vec<TimelineSlot>, n: usize) -> (yes: bool)
    requires
        n < slots@.len(),
    ensures
        yes == (forall|i: int| 0 <= i < n ==> in_order(#[trigger] slots@[i]@, slots@[n as int]@)),
{
    let last = &slots[n];
    let mut i: usize = 0;
    while i < n
        invariant
            i <= n < slots@.len(),
            last == slots@[n as int],
            forall|j: int| 0 <= j < i ==> in_order(#[trigger] slots@[j]@, slots@[n as int]@),
        decreases n - i,
    {
        let slot = &slots[i];
        let same = same_text(slot.session_id.as_str(), last.session_id.as_str());
        if slot.id == last.id || (same && slot.sequence_order > last.sequence_order) {
            assert(!in_order(slots@[i as int]@, slots@[n as int]@));
            return false;
        }
        i += 1;
    }
    true
}

impl Memory {
    /// A memory that holds nothing.
    pub fn new() -> (memory: Memory)
        ensures
            memory@ == loaded(seq![], 1, 1),
            memory@.valid(),
    {
        let memory = Memory {
            slots: Vec::new(),
            next_slot_id: 1,
            next_content_id: 1,
            journal: Vec::new(),
        };
        assert(views(memory.slots@) =~= seq![]);
        assert(change_views(memory.journal@) =~= seq![]);
        memory
    }

    /// A memory with the given timeline, which must stand oldest first within each session. There is
    /// none where the timeline breaks the invariant.
    pub fn load(slots: Vec<TimelineSlot>, next_slot_id: i64, next_content_id: i64) -> (memory: Option<
        Memory,
    >)
        ensures
            match memory {
                Some(m) => {
                    &&& m@ == loaded(views(slots@), next_slot_id as int, next_content_id as int)
                    &&& m@.valid()
                },
                None => !loaded(
                    views(slots@),
                    next_slot_id as int,
                    next_content_id as int,
                ).valid(),
            },
    {
        let ghost state = loaded(views(slots@), next_slot_id as int, next_content_id as int);
        let ghost all = views(slots@);
        if weigh_all(&slots).is_none() {
            return None;
        }
        let mut n: usize = 0;
        while n < slots.len()
            invariant
                n <= slots@.len(),
                all == views(slots@),
                state == loaded(all, next_slot_id as int, next_content_id as int),
                forall|i: int| 0 <= i < n ==> (#[trigger] all[i]).valid() && all[i].id < next_slot_id,
                forall|i: int|
                    0 <= i < n && (#[trigger] all[i]).content_id is Some ==> all[i].content_id->0
                        < next_content_id,
                forall|i: int, j: int|
                    0 <= i < j < n ==> in_order(#[trigger] all[i], #[trigger] all[j]),
            decreases slots@.len() - n,
        {
            assert(all[n as int] == slots@[n as int]@);
            let slot = &slots[n];
            let known = match slot.content_id {
                None => true,
                Some(id) => id < next_content_id,
            };
            if !is_valid(slot) || !known || slot.id >= next_slot_id || !follows_all(&slots, n) {
                proof {
                    if state.valid() {
                        assert(all[n as int].valid());
                        assert forall|i: int| 0 <= i < n implies in_order(
                            #[trigger] slots@[i]@,
                            slots@[n as int]@,
                        ) by {
                            assert(all[i] == slots@[i]@);
                            assert(state.slots[i].id != state.slots[n as int].id);
                        }
                        assert(false);
                    }
                }
                return None;
            }
            assert forall|i: int| 0 <= i < n implies in_order(
                #[trigger] all[i],
                all[n as int],
            ) by {
                assert(all[i] == slots@[i]@);
            }
            n += 1;
        }
        let memory = Memory { slots, next_slot_id, next_content_id, journal: Vec::new() };
        assert(change_views(memory.journal@) =~= seq![]);
        assert(forall|i: int, j: int|
            0 <= i < j < all.len() ==> in_order(#[trigger] all[i], #[trigger] all[j]));
        Some(memory)
    }

    /// The timeline.
    pub fn slots(&self) -> (slots: &Vec<TimelineSlot>)
        ensures
            views(slots@) == self@.slots,
    {
        &self.slots
    }

    /// Hands over the changes made so far, for storing.
    pub fn take_changes(&mut self) -> (changes: Vec<Change>)
        ensures
            change_views(changes@) == old(self)@.journal,
            final(self)@ == (State { journal: seq![], ..old(self)@ }),
    {
        let mut changes: Vec<Change> = Vec::new();
        std::mem::swap(&mut changes, &mut self.journal);
        assert(change_views(self.journal@) =~= seq![]);
        changes
    }

    /// `State::room` on a memory.
    pub fn has_room(&self, n: u64) -> (yes: bool)
        ensures
            yes == self@.room(n as int),
    {
        if n > i64::MAX as u64 {
            return false;
        }
        let limit: i64 = i64::MAX - n as i64;
        if self.next_slot_id > limit {
            return false;
        }
        let mut i: usize = 0;
        while i < self.slots.len()
            invariant
                i <= self.slots@.len(),
                limit == i64::MAX - n,
                self@.slots == views(self.slots@),
                forall|j: int|
                    0 <= j < i ==> (#[trigger] self@.slots[j]).sequence_order + n <= i64::MAX,
            decreases self.slots@.len() - i,
        {
            assert(self@.slots[i as int] == self.slots@[i as int]@);
            if self.slots[i].sequence_order > limit {
                return false;
            }
            i += 1;
        }
        true
    }

    /// The places of the slots that a selection chooses.
    pub fn find(&self, selection: &Selection) -> (at: Vec<usize>)
        ensures
            at_places(self@.slots, at@) == selected(self@.slots, selection@),
            forall|k: int| 0 <= k < at@.len() ==> #[trigger] at@[k] < self@.slots.len(),
    {
        places(&self.slots, selection)
    }

    /// Moves the slots with the given ids to the past.
    pub fn archive(&mut self, ids: Vec<i64>)
        requires
            old(self)@.valid(),
        ensures
            final(self)@ == old(self)@.step(ChangeView::ArchiveSlots(ids@)),
            final(self)@.valid(),
            forall|n: int| #[trigger] old(self)@.room(n) ==> final(self)@.room(n),
    {
        let ghost before = views(self.slots@);
        let ghost changes = change_views(self.journal@);
        proof {
            lemma_archive(self@, ids@);
        }
        let mut i: usize = 0;
        while i < self.slots.len()
            invariant
                i <= self.slots@.len(),
                self.slots@.len() == before.len(),
                self.next_slot_id == old(self).next_slot_id,
                self.next_content_id == old(self).next_content_id,
                self.journal == old(self).journal,
                forall|j: int|
                    0 <= j < i ==> (#[trigger] self.slots@[j])@ == archived(before, ids@)[j],
                forall|j: int| i <= j < before.len() ==> (#[trigger] self.slots@[j])@ == before[j],
            decreases self.slots@.len() - i,
        {
            assert(self.slots@[i as int]@ == before[i as int]);
            if is_among(&ids, self.slots[i].id) {
                self.slots[i].temporal_state = PAST.to_owned();
            }
            i += 1;
        }
        assert(views(self.slots@) =~= archived(before, ids@));
        self.journal.push(Change::ArchiveSlots(ids));
        assert(change_views(self.journal@) =~= changes.push(ChangeView::ArchiveSlots(ids@)));
    }

    /// The position of a session's next slot.
    fn order_of_next(&self, session: &str) -> (order: i64)
        requires
            self@.room(1),
        ensures
            order == self@.next_order(session@),
    {
        proof {
            lemma_next_order(self@, session@);
        }
        let ghost all = views(self.slots@);
        let mut top: Option<i64> = None;
        let mut i: usize = 0;
        while i < self.slots.len()
            invariant
                i <= self.slots@.len(),
                all == views(self.slots@),
                match top {
                    None => highest(all.take(i as int), session@) is None,
                    Some(n) => highest(all.take(i as int), session@) == Some(n as int),
                },
            decreases self.slots@.len() - i,
        {
            assert(all.take(i + 1).drop_last() =~= all.take(i as int));
            assert(all.take(i + 1).last() == self.slots@[i as int]@);
            let slot = &self.slots[i];
            if same_text(slot.session_id.as_str(), session) {
                top = match top {
                    Some(n) if n >= slot.sequence_order => Some(n),
                    _ => Some(slot.sequence_order),
                };
            }
            i += 1;
        }
        assert(all.take(i as int) =~= all);
        match top {
            None => 1,
            Some(n) => n + 1,
        }
    }

    /// Adds `slot` at the end of the timeline.
    fn insert(&mut self, slot: TimelineSlot)
        requires
            old(self)@.valid(),
            old(self)@.room(1),
            slot@.valid(),
            slot@.id == old(self)@.next_slot_id,
            slot@.sequence_order == old(self)@.next_order(slot@.session_id),
            slot@.content_id is Some ==> slot@.content_id->0 < old(self)@.next_content_id,
            total_weight(old(self)@.slots) + weight(slot@) <= i64::MAX,
        ensures
            final(self)@ == old(self)@.step(ChangeView::InsertSlot(slot@)),
            final(self)@.valid(),
            forall|n: int| #[trigger] old(self)@.room(n) && n >= 1 ==> final(self)@.room(n - 1),
    {
        let ghost before = views(self.slots@);
        let ghost changes = change_views(self.journal@);
        proof {
            lemma_insert(self@, slot@);
        }
        self.next_slot_id = slot.id + 1;
        self.journal.push(Change::InsertSlot(slot.duplicate()));
        self.slots.push(slot);
        assert(views(self.slots@) =~= before.push(slot@));
        assert(change_views(self.journal@) =~= changes.push(ChangeView::InsertSlot(slot@)));
    }

    /// Adds a constraint to a session.
    pub fn insert_future(&mut self, session: &str, lesson: &str, kind: &str)
        requires
            old(self)@.valid(),
            old(self)@.room(1),
            kind@ == DERIVED@ || kind@ == PROSPECTIVE@,
        ensures
            final(self)@ == old(self)@.step(
                ChangeView::InsertSlot(old(self)@.future_slot(session@, lesson@, kind@)),
            ),
            final(self)@.valid(),
            forall|n: int| #[trigger] old(self)@.room(n) && n >= 1 ==> final(self)@.room(n - 1),
    {
        let order: i64 = self.order_of_next(session);
        self.insert(
            TimelineSlot {
                id: self.next_slot_id,
                content_id: None,
                session_id: session.to_owned(),
                sequence_order: order,
                temporal_state: FUTURE.to_owned(),
                learning_summary: Some(lesson.to_owned()),
                created_at: None,
                constraint_type: Some(kind.to_owned()),
                raw_log: None,
                file_context: None,
            },
        );
    }

    /// Stores content under the next id.
    pub fn store_content(
        &mut self,
        raw_log: &str,
        file_context: Option<&str>,
        tool_payload: Option<&str>,
    ) -> (id: i64)
        requires
            old(self)@.valid(),
            old(self)@.next_content_id < i64::MAX,
        ensures
            id == old(self)@.next_content_id,
            final(self)@ == old(self)@.step(
                ChangeView::StoreContent(
                    ContentView {
                        id,
                        raw_log: raw_log@,
                        file_context: given(file_context),
                        tool_payload: given(tool_payload),
                    },
                ),
            ),
            final(self)@.valid(),
            forall|n: int| #[trigger] old(self)@.room(n) ==> final(self)@.room(n),
    {
        let ghost changes = change_views(self.journal@);
        let id: i64 = self.next_content_id;
        let content = MemoryContent {
            id,
            raw_log: raw_log.to_owned(),
            file_context: owned(file_context),
            tool_payload: owned(tool_payload),
        };
        let ghost view = content@;
        self.next_content_id = id + 1;
        self.journal.push(Change::StoreContent(content));
        assert(change_views(self.journal@) =~= changes.push(ChangeView::StoreContent(view)));
        id
    }

    /// Adds a slot for content to a session.
    pub fn insert_present(
        &mut self,
        session: &str,
        content_id: i64,
        raw_log: &str,
        file_context: Option<&str>,
    )
        requires
            old(self)@.valid(),
            old(self)@.room(1),
            content_id < old(self)@.next_content_id,
            total_weight(old(self)@.slots) + measured(raw_log@) <= i64::MAX,
        ensures
            final(self)@ == old(self)@.step(
                ChangeView::InsertSlot(
                    old(self)@.present_slot(session@, content_id, raw_log@, given(file_context)),
                ),
            ),
            final(self)@.valid(),
            forall|n: int| #[trigger] old(self)@.room(n) && n >= 1 ==> final(self)@.room(n - 1),
    {
        let order: i64 = self.order_of_next(session);
        self.insert(
            TimelineSlot {
                id: self.next_slot_id,
                content_id: Some(content_id),
                session_id: session.to_owned(),
                sequence_order: order,
                temporal_state: PRESENT.to_owned(),
                learning_summary: None,
                created_at: None,
                constraint_type: None,
                raw_log: Some(raw_log.to_owned()),
                file_context: owned(file_context),
            },
        );
    }

    /// Whether another log can be stored: ids, positions and the measure of all logs last for it.
    pub fn can_record(&self, raw_log: &str) -> (yes: bool)
        requires
            self@.valid(),
        ensures
            yes == self@.takes(raw_log@),
    {
        if !self.has_room(1) || self.next_content_id == i64::MAX {
            return false;
        }
        let n: usize = measure(raw_log);
        match weigh_all(&self.slots) {
            None => false,
            Some(total) => n as u64 <= (i64::MAX - total) as u64,
        }
    }

    /// The ids of the slots at the given places.
    pub fn ids_at(&self, at: &Vec<usize>) -> (ids: Vec<i64>)
        requires
            forall|k: int| 0 <= k < at@.len() ==> #[trigger] at@[k] < self@.slots.len(),
        ensures
            ids@ == ids_of(at_places(self@.slots, at@)),
    {
        let slots = self.slots();
        let mut ids: Vec<i64> = Vec::new();
        let mut k: usize = 0;
        while k < at.len()
            invariant
                k <= at@.len(),
                views(slots@) == self@.slots,
                forall|j: int| 0 <= j < at@.len() ==> #[trigger] at@[j] < self@.slots.len(),
                ids@ == ids_of(at_places(self@.slots, at@)).take(k as int),
            decreases at@.len() - k,
        {
            let ghost all = ids_of(at_places(self@.slots, at@));
            assert(at@[k as int] < self@.slots.len());
            assert(self@.slots[at@[k as int] as int] == slots@[at@[k as int] as int]@);
            ids.push(slots[at[k]].id);
            assert(all.take(k + 1) =~= all.take(k as int).push(all[k as int]));
            k += 1;
        }
        assert(ids@ =~= ids_of(at_places(self@.slots, at@)));
        ids
    }

    /// The measure of the logs of the slots at the given places.
    pub fn weight_at(&self, at: &Vec<usize>) -> (total: i64)
        requires
            forall|k: int| 0 <= k < at@.len() ==> #[trigger] at@[k] < self@.slots.len(),
            total_weight(at_places(self@.slots, at@)) <= i64::MAX,
        ensures
            total == total_weight(at_places(self@.slots, at@)),
            0 <= total,
    {
        let slots = self.slots();
        let ghost all = at_places(self@.slots, at@);
        let mut total: i64 = 0;
        let mut k: usize = 0;
        while k < at.len()
            invariant
                k <= at@.len(),
                views(slots@) == self@.slots,
                all == at_places(self@.slots, at@),
                total_weight(all) <= i64::MAX,
                forall|j: int| 0 <= j < at@.len() ==> #[trigger] at@[j] < self@.slots.len(),
                0 <= total,
                total == total_weight(all.take(k as int)),
            decreases at@.len() - k,
        {
            assert(at@[k as int] < self@.slots.len());
            assert(self@.slots[at@[k as int] as int] == slots@[at@[k as int] as int]@);
            let n: usize = weigh(&slots[at[k]]);
            proof {
                assert(all.take(k + 1).drop_last() =~= all.take(k as int));
                assert(all.take(k + 1).last() == all[k as int]);
                lemma_take_weight(all, k + 1);
            }
            total += n as i64;
            k += 1;
        }
        assert(all.take(k as int) =~= all);
        total
    }
}

} // verus!

//! The slots of the timeline and how they are selected.
use vstd::prelude::*;
use crate::text::{same_text, shown};

verus! {

/// What the agent works on now.
pub const PRESENT: &'static str = "PRESENT";

/// What has been learned from and is hidden.
pub const PAST: &'static str = "PAST";

/// A constraint for what comes.
pub const FUTURE: &'static str = "FUTURE";

/// The origin of a constraint that a failure taught.
pub const DERIVED: &'static str = "DERIVED";

/// The origin of a constraint that comes from foresight.
pub const PROSPECTIVE: &'static str = "PROSPECTIVE";

/// A slot in the agent's timeline: content joined with a temporal state and a position in the
/// session's chronology.
#[derive(Debug)]
pub struct TimelineSlot {
    pub id: i64,
    pub content_id: Option<i64>,
    pub session_id: String,
    pub sequence_order: i64,
    pub temporal_state: String,
    pub learning_summary: Option<String>,
    pub created_at: Option<String>,
    /// Origin of a `FUTURE` constraint: `DERIVED` or `PROSPECTIVE`.
    pub constraint_type: Option<String>,
    /// The log of the content that the slot refers to, where there is such content.
    pub raw_log: Option<String>,
    /// The file that the content is about.
    pub file_context: Option<String>,
}

/// A slot as a value of the specification.
#[verifier::ext_equal]
pub struct SlotView {
    pub id: i64,
    pub content_id: Option<i64>,
    pub session_id: Seq<char>,
    pub sequence_order: i64,
    pub temporal_state: Seq<char>,
    pub learning_summary: Option<Seq<char>>,
    pub created_at: Option<Seq<char>>,
    pub constraint_type: Option<Seq<char>>,
    pub raw_log: Option<Seq<char>>,
    pub file_context: Option<Seq<char>>,
}

impl View for TimelineSlot {
    type V = SlotView;

    open spec fn view(&self) -> SlotView {
        SlotView {
            id: self.id,
            content_id: self.content_id,
            session_id: self.session_id@,
            sequence_order: self.sequence_order,
            temporal_state: self.temporal_state@,
            learning_summary: shown(self.learning_summary),
            created_at: shown(self.created_at),
            constraint_type: shown(self.constraint_type),
            raw_log: shown(self.raw_log),
            file_context: shown(self.file_context),
        }
    }
}

/// A copy of a string that may be missing.
pub fn copy_text(s: &Option<String>) -> (t: Option<String>)
    ensures
        shown(t) == shown(*s),
{
    match s {
        Some(text) => Some(text.clone()),
        None => None,
    }
}

impl TimelineSlot {
    /// A copy of the slot.
    pub fn duplicate(&self) -> (copy: TimelineSlot)
        ensures
            copy@ == self@,
    {
        TimelineSlot {
            id: self.id,
            content_id: self.content_id,
            session_id: self.session_id.clone(),
            sequence_order: self.sequence_order,
            temporal_state: self.temporal_state.clone(),
            learning_summary: copy_text(&self.learning_summary),
            created_at: copy_text(&self.created_at),
            constraint_type: copy_text(&self.constraint_type),
            raw_log: copy_text(&self.raw_log),
            file_context: copy_text(&self.file_context),
        }
    }
}

/// The three temporal states differ.
pub proof fn lemma_states_differ()
    ensures
        PRESENT@ != PAST@,
        PRESENT@ != FUTURE@,
        PAST@ != FUTURE@,
{
    reveal_strlit("PRESENT");
    reveal_strlit("PAST");
    reveal_strlit("FUTURE");
    assert(PRESENT@.len() == 7);
    assert(PAST@.len() == 4);
    assert(FUTURE@.len() == 6);
}

impl SlotView {
    /// Whether the state is one of the three, and the origin, where there is one, one of the two.
    pub open spec fn valid(self) -> bool {
        &&& self.temporal_state == PRESENT@ || self.temporal_state == PAST@ || self.temporal_state
            == FUTURE@
        &&& match self.constraint_type {
            None => true,
            Some(kind) => kind == DERIVED@ || kind == PROSPECTIVE@,
        }
    }

    /// The slot moved to the past.
    pub open spec fn past(self) -> SlotView {
        SlotView { temporal_state: PAST@, ..self }
    }
}

/// The slots of a list.
pub open spec fn views(slots: Seq<TimelineSlot>) -> Seq<SlotView> {
    Seq::new(slots.len(), |i: int| slots[i]@)
}

/// A choice of slots, as a value of the specification.
pub struct Query {
    /// The session that the slots belong to.
    pub session: Seq<char>,
    /// The state that they are in, where it matters.
    pub state: Option<Seq<char>>,
    /// The ids that they are looked up by, where it matters.
    pub ids: Option<Seq<i64>>,
    /// Whether only slots with a log count.
    pub logged: bool,
}

impl Query {
    /// All slots of a session.
    pub open spec fn all(session: Seq<char>) -> Query {
        Query { session, state: None, ids: None, logged: false }
    }

    /// The slots of a session in one state.
    pub open spec fn in_state(session: Seq<char>, state: Seq<char>) -> Query {
        Query { session, state: Some(state), ids: None, logged: false }
    }

    /// Those of the slots that have one of `ids`.
    pub open spec fn among(self, ids: Seq<i64>) -> Query {
        Query { ids: Some(ids), ..self }
    }

    /// Those of the slots that have a log.
    pub open spec fn with_log(self) -> Query {
        Query { logged: true, ..self }
    }

    /// Whether a slot is chosen.
    pub open spec fn picks(self, slot: SlotView) -> bool {
        &&& slot.session_id == self.session
        &&& match self.state {
            None => true,
            Some(state) => slot.temporal_state == state,
        }
        &&& match self.ids {
            None => true,
            Some(ids) => ids.contains(slot.id),
        }
        &&& self.logged ==> slot.raw_log is Some
    }
}

/// The slots that `query` picks, in the order in which they stand.
pub open spec fn selected(slots: Seq<SlotView>, query: Query) -> Seq<SlotView>
    decreases slots.len(),
{
    if slots.len() == 0 {
        seq![]
    } else {
        let before = selected(slots.drop_last(), query);
        if query.picks(slots.last()) {
            before.push(slots.last())
        } else {
            before
        }
    }
}

/// The ids of a list of slots.
pub open spec fn ids_of(slots: Seq<SlotView>) -> Seq<i64> {
    Seq::new(slots.len(), |i: int| slots[i].id)
}

/// A choice of slots.
pub struct Selection<'a> {
    pub session: &'a str,
    pub state: Option<&'a str>,
    pub ids: Option<&'a Vec<i64>>,
    pub logged: bool,
}

impl<'a> View for Selection<'a> {
    type V = Query;

    open spec fn view(&self) -> Query {
        Query {
            session: self.session@,
            state: match self.state {
                None => None,
                Some(state) => Some(state@),
            },
            ids: match self.ids {
                None => None,
                Some(ids) => Some(ids@),
            },
            logged: self.logged,
        }
    }
}

/// Whether `id` is among `ids`.
pub fn is_among(ids: &Vec<i64>, id: i64) -> (yes: bool)
    ensures
        yes == ids@.contains(id),
{
    let mut i: usize = 0;
    while i < ids.len()
        invariant
            i <= ids@.len(),
            forall|j: int| 0 <= j < i ==> ids@[j] != id,
        decreases ids@.len() - i,
    {
        if ids[i] == id {
            return true;
        }
        i += 1;
    }
    false
}

impl<'a> Selection<'a> {
    /// `Query::picks` on a slot.
    fn chooses(&self, slot: &TimelineSlot) -> (yes: bool)
        ensures
            yes == self@.picks(slot@),
    {
        if !same_text(slot.session_id.as_str(), self.session) {
            return false;
        }
        if let Some(state) = self.state {
            if !same_text(slot.temporal_state.as_str(), state) {
                return false;
            }
        }
        if let Some(ids) = self.ids {
            if !is_among(ids, slot.id) {
                return false;
            }
        }
        !self.logged || slot.raw_log.is_some()
    }
}

/// The slots at the places `at`.
pub open spec fn at_places(slots: Seq<SlotView>, at: Seq<usize>) -> Seq<SlotView> {
    Seq::new(at.len(), |k: int| slots[at[k] as int])
}

/// The places of the slots that a selection chooses.
pub fn places(slots: &Vec<TimelineSlot>, selection: &Selection) -> (at: Vec<usize>)
    ensures
        at_places(views(slots@), at@) == selected(views(slots@), selection@),
        forall|k: int| 0 <= k < at@.len() ==> #[trigger] at@[k] < slots@.len(),
{
    let ghost all = views(slots@);
    let mut at: Vec<usize> = Vec::new();
    let mut i: usize = 0;
    while i < slots.len()
        invariant
            i <= slots@.len(),
            all == views(slots@),
            at_places(all, at@) == selected(all.take(i as int), selection@),
            forall|k: int| 0 <= k < at@.len() ==> #[trigger] at@[k] < slots@.len(),
        decreases slots@.len() - i,
    {
        let ghost done = at_places(all, at@);
        assert(all.take(i + 1).drop_last() =~= all.take(i as int));
        assert(all.take(i + 1).last() == slots@[i as int]@);
        if selection.chooses(&slots[i]) {
            at.push(i);
            assert(at_places(all, at@) =~= done.push(all[i as int]));
        }
        i += 1;
    }
    assert(all.take(i as int) =~= all);
    at
}

/// What `query` selects, it picks.
pub proof fn lemma_selected_picks(slots: Seq<SlotView>, query: Query)
    ensures
        forall|i: int|
            0 <= i < selected(slots, query).len() ==> query.picks(
                #[trigger] selected(slots, query)[i],
            ) && slots.contains(selected(slots, query)[i]),
    decreases slots.len(),
{
    if slots.len() > 0 {
        let before = selected(slots.drop_last(), query);
        lemma_selected_picks(slots.drop_last(), query);
        assert forall|i: int| 0 <= i < selected(slots, query).len() implies query.picks(
            #[trigger] selected(slots, query)[i],
        ) && slots.contains(selected(slots, query)[i]) by {
            if i < before.len() {
                assert(selected(slots, query)[i] == before[i]);
                let k = choose|k: int| 0 <= k < slots.len() - 1 && slots.drop_last()[k] == before[i];
                assert(slots[k] == before[i]);
            } else {
                assert(slots[slots.len() - 1] == slots.last());
            }
        }
    }
}

/// What a query picks is selected.
pub proof fn lemma_picked_is_selected(slots: Seq<SlotView>, query: Query, i: int)
    requires
        0 <= i < slots.len(),
        query.picks(slots[i]),
    ensures
        selected(slots, query).contains(slots[i]),
    decreases slots.len(),
{
    let before = selected(slots.drop_last(), query);
    let all = selected(slots, query);
    if i == slots.len() - 1 {
        assert(all[all.len() - 1] == slots[i]);
    } else {
        lemma_picked_is_selected(slots.drop_last(), query, i);
        let k = choose|k: int| 0 <= k < before.len() && before[k] == slots.drop_last()[i];
        assert(all[k] == slots[i]);
    }
}

/// Another slot at the end is selected last, or not at all.
pub proof fn lemma_selected_push(slots: Seq<SlotView>, slot: SlotView, query: Query)
    ensures
        selected(slots.push(slot), query) == if query.picks(slot) {
            selected(slots, query).push(slot)
        } else {
            selected(slots, query)
        },
{
    assert(slots.push(slot).drop_last() =~= slots);
}

/// Those of `slots` that have none of `ids`.
pub open spec fn without(slots: Seq<SlotView>, ids: Seq<i64>) -> Seq<SlotView>
    decreases slots.len(),
{
    if slots.len() == 0 {
        seq![]
    } else {
        let before = without(slots.drop_last(), ids);
        if ids.contains(slots.last().id) {
            before
        } else {
            before.push(slots.last())
        }
    }
}

/// Leaving slots out leaves fewer where one of them has such an id, and only slots that were there.
pub proof fn lemma_without(slots: Seq<SlotView>, ids: Seq<i64>)
    ensures
        without(slots, ids).len() <= slots.len(),
        (exists|i: int| 0 <= i < slots.len() && ids.contains((#[trigger] slots[i]).id)) ==> without(
            slots,
            ids,
        ).len() < slots.len(),
        forall|i: int|
            0 <= i < without(slots, ids).len() ==> slots.contains(#[trigger] without(slots, ids)[i]),
    decreases slots.len(),
{
    if slots.len() > 0 {
        let front = slots.drop_last();
        let before = without(front, ids);
        lemma_without(front, ids);
        if exists|i: int| 0 <= i < slots.len() && ids.contains((#[trigger] slots[i]).id) {
            let i = choose|i: int| 0 <= i < slots.len() && ids.contains((#[trigger] slots[i]).id);
            if i < front.len() {
                assert(ids.contains(front[i].id));
            }
        }
        assert forall|i: int| 0 <= i < without(slots, ids).len() implies slots.contains(
            #[trigger] without(slots, ids)[i],
        ) by {
            if i < before.len() {
                assert(without(slots, ids)[i] == before[i]);
                let k = choose|k: int| 0 <= k < front.len() && front[k] == before[i];
                assert(slots[k] == before[i]);
            } else {
                assert(slots[slots.len() - 1] == slots.last());
            }
        }
    }
}

} // verus!

//! Counting and listing the slots of a timeline that meet a condition.
use vstd::prelude::*;
use crate::memory::{archived, measured, State};
use crate::slot::{ids_of, selected, Query, SlotView};

verus! {

/// How many slots meet a condition.
pub open spec fn count(slots: Seq<SlotView>, which: spec_fn(SlotView) -> bool) -> nat
    decreases slots.len(),
{
    if slots.len() == 0 {
        0
    } else {
        count(slots.drop_last(), which) + if which(slots.last()) {
            1nat
        } else {
            0nat
        }
    }
}

/// The characters, up to the first NUL, of the logs of those slots that meet a condition.
pub open spec fn log_chars(slots: Seq<SlotView>, which: spec_fn(SlotView) -> bool) -> nat
    decreases slots.len(),
{
    if slots.len() == 0 {
        0
    } else {
        log_chars(slots.drop_last(), which) + match slots.last().raw_log {
            Some(log) if which(slots.last()) => measured(log),
            _ => 0,
        }
    }
}

/// Whether `places` are those of all slots that meet a condition, in order, and `out` is what stands there.
pub open spec fn is_listed(
    out: Seq<SlotView>,
    slots: Seq<SlotView>,
    which: spec_fn(SlotView) -> bool,
    places: Seq<int>,
) -> bool {
    &&& places.len() == out.len()
    &&& forall|k: int|
        0 <= k < places.len() ==> {
            &&& 0 <= #[trigger] places[k] < slots.len()
            &&& which(slots[places[k]])
            &&& out[k] == slots[places[k]]
        }
    &&& forall|k: int, l: int|
        0 <= k < l < places.len() ==> #[trigger] places[k] < #[trigger] places[l]
    &&& forall|i: int| 0 <= i < slots.len() && which(#[trigger] slots[i]) ==> places.contains(i)
}

/// Whether `out` lists all slots that meet a condition, and no other, in the order of the timeline.
pub open spec fn lists(
    out: Seq<SlotView>,
    slots: Seq<SlotView>,
    which: spec_fn(SlotView) -> bool,
) -> bool {
    exists|places: Seq<int>| is_listed(out, slots, which, places)
}

/// A list goes on with another slot that meets the condition, and stays with one that does not.
pub proof fn lemma_lists_further(
    out: Seq<SlotView>,
    slots: Seq<SlotView>,
    which: spec_fn(SlotView) -> bool,
)
    requires
        slots.len() > 0,
        lists(out, slots.drop_last(), which),
    ensures
        which(slots.last()) ==> lists(out.push(slots.last()), slots, which),
        !which(slots.last()) ==> lists(out, slots, which),
{
    let front = slots.drop_last();
    let n = slots.len() - 1;
    let places = choose|places: Seq<int>| is_listed(out, front, which, places);
    assert forall|k: int| 0 <= k < places.len() implies 0 <= #[trigger] places[k] < n && which(
        slots[places[k]],
    ) && out[k] == slots[places[k]] by {
        assert(front[places[k]] == slots[places[k]]);
    }
    assert forall|i: int| 0 <= i < n && which(#[trigger] slots[i]) implies places.contains(i) by {
        assert(which(front[i]));
    }
    if which(slots.last()) {
        let longer = places.push(n);
        assert forall|i: int| 0 <= i < slots.len() && which(
            #[trigger] slots[i],
        ) implies longer.contains(i) by {
            if i == n {
                assert(longer[places.len() as int] == n);
            } else {
                let k = choose|k: int| 0 <= k < places.len() && places[k] == i;
                assert(longer[k] == i);
            }
        }
        assert(is_listed(out.push(slots.last()), slots, which, longer));
    } else {
        assert(is_listed(out, slots, which, places));
    }
}

/// What a query selects lists the slots that it picks.
pub proof fn lemma_selected_lists(
    slots: Seq<SlotView>,
    query: Query,
    which: spec_fn(SlotView) -> bool,
)
    requires
        forall|slot: SlotView| #[trigger] which(slot) == query.picks(slot),
    ensures
        lists(selected(slots, query), slots, which),
        selected(slots, query).len() == count(slots, which),
    decreases slots.len(),
{
    if slots.len() == 0 {
        assert(is_listed(selected(slots, query), slots, which, seq![]));
    } else {
        lemma_selected_lists(slots.drop_last(), query, which);
        assert(which(slots.last()) == query.picks(slots.last()));
        lemma_lists_further(selected(slots.drop_last(), query), slots, which);
    }
}

/// Slots meet conditions that agree on them alike.
pub proof fn lemma_count_same(
    slots: Seq<SlotView>,
    a: spec_fn(SlotView) -> bool,
    b: spec_fn(SlotView) -> bool,
)
    requires
        forall|i: int| 0 <= i < slots.len() ==> a(#[trigger] slots[i]) == b(slots[i]),
    ensures
        count(slots, a) == count(slots, b),
    decreases slots.len(),
{
    if slots.len() > 0 {
        assert(a(slots[slots.len() - 1]) == b(slots[slots.len() - 1]));
        assert forall|i: int| 0 <= i < slots.drop_last().len() implies a(
            #[trigger] slots.drop_last()[i],
        ) == b(slots.drop_last()[i]) by {
            assert(a(slots[i]) == b(slots[i]));
        }
        lemma_count_same(slots.drop_last(), a, b);
    }
}

/// Where fewer slots of one list meet a condition, place by place, than of another that is as long, no
/// more are counted.
pub proof fn lemma_count_fewer(
    less: Seq<SlotView>,
    more: Seq<SlotView>,
    which: spec_fn(SlotView) -> bool,
)
    requires
        less.len() == more.len(),
        forall|i: int| 0 <= i < less.len() && which(#[trigger] less[i]) ==> which(more[i]),
    ensures
        count(less, which) <= count(more, which),
    decreases less.len(),
{
    if less.len() > 0 {
        assert(which(less[less.len() - 1]) ==> which(more[more.len() - 1]));
        assert forall|i: int| 0 <= i < less.drop_last().len() && which(
            #[trigger] less.drop_last()[i],
        ) implies which(more.drop_last()[i]) by {
            assert(which(less[i]));
        }
        lemma_count_fewer(less.drop_last(), more.drop_last(), which);
    }
}

/// Where no two slots meet a condition, one at most is counted.
pub proof fn lemma_count_one(slots: Seq<SlotView>, which: spec_fn(SlotView) -> bool)
    requires
        forall|i: int, j: int|
            0 <= i < j < slots.len() ==> !(which(#[trigger] slots[i]) && which(#[trigger] slots[j])),
    ensures
        count(slots, which) <= 1,
    decreases slots.len(),
{
    if slots.len() > 0 {
        let front = slots.drop_last();
        assert forall|i: int, j: int| 0 <= i < j < front.len() implies !(which(#[trigger] front[i])
            && which(#[trigger] front[j])) by {
            assert(!(which(slots[i]) && which(slots[j])));
        }
        lemma_count_one(front, which);
        if which(slots.last()) {
            assert forall|i: int| 0 <= i < front.len() implies !which(#[trigger] front[i]) by {
                assert(!(which(slots[i]) && which(slots[slots.len() - 1])));
            }
            lemma_count_none(front, which);
        }
    }
}

/// Where no slot meets a condition, none is counted.
pub proof fn lemma_count_none(slots: Seq<SlotView>, which: spec_fn(SlotView) -> bool)
    requires
        forall|i: int| 0 <= i < slots.len() ==> !which(#[trigger] slots[i]),
    ensures
        count(slots, which) == 0,
    decreases slots.len(),
{
    if slots.len() > 0 {
        assert(!which(slots[slots.len() - 1]));
        assert forall|i: int| 0 <= i < slots.drop_last().len() implies !which(
            #[trigger] slots.drop_last()[i],
        ) by {
            assert(!which(slots[i]));
        }
        lemma_count_none(slots.drop_last(), which);
    }
}

/// Archiving a list of all slots that meet a condition moves these to the past, and leaves the others.
pub proof fn lemma_listed_archived(
    state: State,
    out: Seq<SlotView>,
    which: spec_fn(SlotView) -> bool,
    i: int,
)
    requires
        state.valid(),
        lists(out, state.slots, which),
        0 <= i < state.slots.len(),
    ensures
        ids_of(out).contains(state.slots[i].id) == which(state.slots[i]),
        archived(state.slots, ids_of(out))[i] == if which(state.slots[i]) {
            SlotView { temporal_state: "PAST"@, ..state.slots[i] }
        } else {
            state.slots[i]
        },
{
    let places = choose|places: Seq<int>| is_listed(out, state.slots, which, places);
    let ids = ids_of(out);
    if which(state.slots[i]) {
        assert(places.contains(i));
        let k = choose|k: int| 0 <= k < places.len() && places[k] == i;
        assert(ids[k] == state.slots[i].id);
    }
    if ids.contains(state.slots[i].id) {
        let k = choose|k: int| 0 <= k < ids.len() && ids[k] == state.slots[i].id;
        let j = places[k];
        assert(out[k] == state.slots[j]);
        assert(state.slots[j].id == state.slots[i].id);
        assert(i == j);
    }
}

} // verus!

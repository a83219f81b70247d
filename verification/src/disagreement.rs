//! Which constraints are warned about.
use vstd::prelude::*;
use crate::casing::lowercase;
use crate::census::{is_listed, lemma_selected_lists};
use crate::conflicts::{
    between, clash, clash_from, conflicts, contradictions, lemma_warnings_are_complete, lower_lessons,
    warning, warnings, warnings_about, warns, warns_about, warns_of,
};
use crate::consolidation::constraints;
use crate::effects::is_constraint_of;
use crate::memory::State;
use crate::slot::{ids_of, Query, SlotView};
use crate::text::{contains, decimal};
use crate::text_laws::{is_part, lemma_containing};

verus! {

/// Two phrases that contradict each other, and what is said of them.
pub struct Opposites {
    pub one: Seq<char>,
    pub other: Seq<char>,
    pub description: Seq<char>,
}

/// The `k`-th of the ten pairs of phrases that contradict each other, those that count first first.
pub open spec fn opposites(k: int) -> Opposites {
    if k == 0 {
        Opposites { one: "retry"@, other: "never retry"@, description: "retry vs. never retry"@ }
    } else if k == 1 {
        Opposites { one: "retry"@, other: "do not retry"@, description: "retry vs. do not retry"@ }
    } else if k == 2 {
        Opposites { one: "use cache"@, other: "do not cache"@, description: "cache vs. do not cache"@ }
    } else if k == 3 {
        Opposites { one: "use cache"@, other: "never cache"@, description: "cache vs. never cache"@ }
    } else if k == 4 {
        Opposites { one: "use cache"@, other: "avoid cache"@, description: "cache vs. avoid cache"@ }
    } else if k == 5 {
        Opposites {
            one: "always retry"@,
            other: "stop retrying"@,
            description: "always retry vs. stop retrying"@,
        }
    } else if k == 6 {
        Opposites { one: "format!"@, other: "avoid format!"@, description: "format! vs. avoid format!"@ }
    } else if k == 7 {
        Opposites {
            one: "push_str"@,
            other: "avoid push_str"@,
            description: "push_str vs. avoid push_str"@,
        }
    } else if k == 8 {
        Opposites {
            one: "exponential backoff"@,
            other: "linear backoff"@,
            description: "exponential vs. linear backoff"@,
        }
    } else {
        Opposites {
            one: "connect directly"@,
            other: "use proxy"@,
            description: "direct connection vs. proxy"@,
        }
    }
}

/// What a slot teaches, in lower case.
pub open spec fn taught(slot: SlotView) -> Seq<char> {
    match slot.learning_summary {
        Some(lesson) => lowercase(lesson),
        None => lowercase(""@),
    }
}

/// Whether one of two slots teaches one phrase of a pair and the other slot the other phrase.
pub open spec fn disagree(a: SlotView, b: SlotView, pair: Opposites) -> bool {
    ||| is_part(pair.one, taught(a)) && is_part(pair.other, taught(b))
    ||| is_part(pair.other, taught(a)) && is_part(pair.one, taught(b))
}

/// Whether the `k`-th pair is the first over which two slots disagree.
pub open spec fn first_disagreement(a: SlotView, b: SlotView, k: int) -> bool {
    &&& 0 <= k < 10
    &&& disagree(a, b, opposites(k))
    &&& forall|m: int| 0 <= m < k ==> !disagree(a, b, #[trigger] opposites(m))
}

/// What is said of two slots that disagree over a pair.
pub open spec fn said_of(a: SlotView, b: SlotView, pair: Opposites) -> Seq<char> {
    "Constraint #"@ + decimal(a.id as int) + " vs #"@ + decimal(b.id as int) + ": "@ + pair.description
        + " (\""@ + pair.one + "\" ↔ \""@ + pair.other + "\")"@
}

/// The contradictions that are looked for are the ten pairs.
proof fn lemma_table(k: int)
    requires
        0 <= k < 10,
    ensures
        contradictions().len() == 10,
        contradictions()[k] == between(
            opposites(k).one,
            opposites(k).other,
            opposites(k).description,
        ),
{
}

/// Two lessons clash over a pair exactly where their slots disagree over it.
proof fn lemma_clash(a: SlotView, b: SlotView, k: int)
    requires
        0 <= k < 10,
    ensures
        clash(contradictions()[k], taught(a), taught(b)) == disagree(a, b, opposites(k)),
{
    let pair = opposites(k);
    lemma_table(k);
    lemma_containing(taught(a), pair.one);
    lemma_containing(taught(a), pair.other);
    lemma_containing(taught(b), pair.one);
    lemma_containing(taught(b), pair.other);
}

/// The clash that is found is over the first pair from the `k`-th on over which the slots disagree.
proof fn lemma_clash_from(a: SlotView, b: SlotView, k: int)
    requires
        0 <= k <= 10,
    ensures
        match clash_from(taught(a), taught(b), k) {
            Some(pattern) => exists|n: int|
                k <= n < 10 && disagree(a, b, #[trigger] opposites(n)) && pattern == contradictions()[n]
                    && forall|m: int| k <= m < n ==> !disagree(a, b, #[trigger] opposites(m)),
            None => forall|m: int| k <= m < 10 ==> !disagree(a, b, #[trigger] opposites(m)),
        },
    decreases 10 - k,
{
    lemma_table(0);
    if k < 10 {
        lemma_clash(a, b, k);
        if !clash(contradictions()[k], taught(a), taught(b)) {
            lemma_clash_from(a, b, k + 1);
            if clash_from(taught(a), taught(b), k + 1) is Some {
                let pattern = clash_from(taught(a), taught(b), k + 1)->0;
                let n = choose|n: int|
                    k + 1 <= n < 10 && disagree(a, b, #[trigger] opposites(n)) && pattern
                        == contradictions()[n] && forall|m: int|
                        k + 1 <= m < n ==> !disagree(a, b, #[trigger] opposites(m));
                assert forall|m: int| k <= m < n implies !disagree(a, b, #[trigger] opposites(m)) by {}
            }
        } else {
            assert(disagree(a, b, opposites(k)));
        }
    }
}

/// A text warns of two slots exactly where they disagree and it says so.
proof fn lemma_warns_of(slots: Seq<SlotView>, i: int, j: int, text: Seq<char>)
    requires
        0 <= i < slots.len(),
        0 <= j < slots.len(),
    ensures
        warns_of(ids_of(slots), lower_lessons(slots), i, j, text) <==> exists|k: int| #[trigger]
            first_disagreement(slots[i], slots[j], k) && text == said_of(
                slots[i],
                slots[j],
                opposites(k),
            ),
{
    let a = slots[i];
    let b = slots[j];
    let lessons = lower_lessons(slots);
    assert(lessons[i] == taught(a));
    assert(lessons[j] == taught(b));
    lemma_clash_from(a, b, 0);
    match clash_from(taught(a), taught(b), 0) {
        Some(pattern) => {
            let n = choose|n: int|
                0 <= n < 10 && disagree(a, b, #[trigger] opposites(n)) && pattern == contradictions()[n]
                    && forall|m: int| 0 <= m < n ==> !disagree(a, b, #[trigger] opposites(m));
            lemma_table(n);
            assert(warning(a.id, b.id, pattern) =~= said_of(a, b, opposites(n)));
            assert(first_disagreement(a, b, n));
            assert forall|k: int| #[trigger] first_disagreement(a, b, k) implies k == n by {
                if k < n {
                    assert(!disagree(a, b, opposites(k)));
                }
                if n < k {
                    assert(!disagree(a, b, opposites(n)));
                }
            }
        },
        None => {
            assert forall|k: int| #[trigger] first_disagreement(a, b, k) implies false by {
                assert(!disagree(a, b, opposites(k)));
            }
        },
    }
}

/// Whether a text says of the `i`-th and the `j`-th slot that they disagree, both being constraints of the
/// session.
pub open spec fn tells_of(
    slots: Seq<SlotView>,
    session: Seq<char>,
    i: int,
    j: int,
    k: int,
    text: Seq<char>,
) -> bool {
    &&& 0 <= i < j < slots.len()
    &&& is_constraint_of(session, slots[i])
    &&& is_constraint_of(session, slots[j])
    &&& first_disagreement(slots[i], slots[j], k)
    &&& text == said_of(slots[i], slots[j], opposites(k))
}

/// Whether a text says of two constraints of the session that they disagree.
pub open spec fn tells(slots: Seq<SlotView>, session: Seq<char>, text: Seq<char>) -> bool {
    exists|i: int, j: int, k: int| #[trigger] tells_of(slots, session, i, j, k, text)
}

/// Any two constraints of a session that disagree are warned about, and every warning is about two that
/// do: it names both, the older first, and the first pair of phrases over which they disagree.
pub proof fn lemma_disagreements_are_warned_about(state: State, session: Seq<char>)
    ensures
        forall|i: int, j: int, k: int, text: Seq<char>| #[trigger]
            tells_of(state.slots, session, i, j, k, text) ==> conflicts(state, session).contains(text),
        forall|n: int|
            0 <= n < conflicts(state, session).len() ==> tells(
                state.slots,
                session,
                #[trigger] conflicts(state, session)[n],
            ),
{
    let query = Query::in_state(session, "FUTURE"@);
    let which = |slot: SlotView| is_constraint_of(session, slot);
    let slots = constraints(state, session);
    let ids = ids_of(slots);
    let lessons = lower_lessons(slots);
    let found = conflicts(state, session);
    let n = slots.len() as int;
    assert forall|slot: SlotView| #[trigger] which(slot) == query.picks(slot) by {}
    lemma_selected_lists(state.slots, query, which);
    let places = choose|places: Seq<int>| is_listed(slots, state.slots, which, places);
    lemma_warnings_are_complete(ids, lessons, n);
    assert forall|i: int, j: int, k: int, text: Seq<char>| #[trigger]
        tells_of(state.slots, session, i, j, k, text) implies found.contains(text) by {
        assert(which(state.slots[i]) && which(state.slots[j]));
        let p = choose|p: int| 0 <= p < places.len() && places[p] == i;
        let q = choose|q: int| 0 <= q < places.len() && places[q] == j;
        assert(p < q) by {
            if q < p {
                assert(places[q] < places[p]);
            }
        }
        assert(slots[p] == state.slots[i] && slots[q] == state.slots[j]);
        lemma_warns_of(slots, p, q, text);
        assert(first_disagreement(slots[p], slots[q], k));
        assert(warns_of(ids, lessons, p, q, text));
    }
    assert forall|m: int| 0 <= m < found.len() implies tells(
        state.slots,
        session,
        #[trigger] found[m],
    ) by {
        let text = found[m];
        assert(warns(ids, lessons, n, text));
        let p = choose|p: int|
            0 <= p < n && #[trigger] warns_about(ids, lessons, p, lessons.len() as int, text);
        let q = choose|q: int| p < q < lessons.len() && #[trigger] warns_of(ids, lessons, p, q, text);
        lemma_warns_of(slots, p, q, text);
        let k = choose|k: int| #[trigger]
            first_disagreement(slots[p], slots[q], k) && text == said_of(
                slots[p],
                slots[q],
                opposites(k),
            );
        assert(places[p] < places[q]);
        assert(tells_of(state.slots, session, places[p], places[q], k, text));
    }
}

/// Whether one pair of places comes before another: by the first place, and then by the second.
pub open spec fn comes_before(a: (int, int), b: (int, int)) -> bool {
    a.0 < b.0 || (a.0 == b.0 && a.1 < b.1)
}

/// Whether a text says of the slots at a pair of places that they disagree.
pub open spec fn tells_of_pair(
    slots: Seq<SlotView>,
    session: Seq<char>,
    pair: (int, int),
    text: Seq<char>,
) -> bool {
    exists|k: int| #[trigger] tells_of(slots, session, pair.0, pair.1, k, text)
}

/// Whether warnings are about pairs of places, one each, in the order of the pairs.
pub open spec fn are_about(
    found: Seq<Seq<char>>,
    slots: Seq<SlotView>,
    session: Seq<char>,
    pairs: Seq<(int, int)>,
) -> bool {
    &&& pairs.len() == found.len()
    &&& forall|m: int|
        0 <= m < found.len() ==> tells_of_pair(slots, session, #[trigger] pairs[m], found[m])
    &&& forall|m: int, n: int|
        0 <= m < n < pairs.len() ==> comes_before(#[trigger] pairs[m], #[trigger] pairs[n])
}

/// The pairs that the warnings about one constraint are about.
proof fn lemma_pairs_about(ids: Seq<i64>, lessons: Seq<Seq<char>>, i: int, n: int) -> (pairs: Seq<
    (int, int),
>)
    requires
        0 <= i < n <= lessons.len(),
    ensures
        pairs.len() == warnings_about(ids, lessons, i, n).len(),
        forall|m: int|
            0 <= m < pairs.len() ==> {
                let pair = #[trigger] pairs[m];
                &&& pair.0 == i
                &&& i < pair.1 < n
                &&& warns_of(ids, lessons, pair.0, pair.1, warnings_about(ids, lessons, i, n)[m])
            },
        forall|m: int, l: int|
            0 <= m < l < pairs.len() ==> comes_before(#[trigger] pairs[m], #[trigger] pairs[l]),
    decreases n - i,
{
    if n <= i + 1 {
        seq![]
    } else {
        let before = warnings_about(ids, lessons, i, n - 1);
        let all = warnings_about(ids, lessons, i, n);
        let old_pairs = lemma_pairs_about(ids, lessons, i, n - 1);
        if clash_from(lessons[i], lessons[n - 1], 0) is Some {
            let pairs = old_pairs.push((i, n - 1));
            assert forall|m: int| 0 <= m < pairs.len() implies {
                let pair = #[trigger] pairs[m];
                &&& pair.0 == i
                &&& i < pair.1 < n
                &&& warns_of(ids, lessons, pair.0, pair.1, all[m])
            } by {
                if m < old_pairs.len() {
                    assert(pairs[m] == old_pairs[m]);
                    assert(all[m] == before[m]);
                }
            }
            assert forall|m: int, l: int| 0 <= m < l < pairs.len() implies comes_before(
                #[trigger] pairs[m],
                #[trigger] pairs[l],
            ) by {
                assert(pairs[m] == old_pairs[m]);
                if l < old_pairs.len() {
                    assert(pairs[l] == old_pairs[l]);
                }
            }
            pairs
        } else {
            old_pairs
        }
    }
}

/// The pairs that the warnings about the first constraints are about.
proof fn lemma_pairs(ids: Seq<i64>, lessons: Seq<Seq<char>>, n: int) -> (pairs: Seq<(int, int)>)
    requires
        0 <= n <= lessons.len(),
    ensures
        pairs.len() == warnings(ids, lessons, n).len(),
        forall|m: int|
            0 <= m < pairs.len() ==> {
                let pair = #[trigger] pairs[m];
                &&& 0 <= pair.0 < n
                &&& pair.0 < pair.1 < lessons.len()
                &&& warns_of(ids, lessons, pair.0, pair.1, warnings(ids, lessons, n)[m])
            },
        forall|m: int, l: int|
            0 <= m < l < pairs.len() ==> comes_before(#[trigger] pairs[m], #[trigger] pairs[l]),
    decreases n,
{
    if n <= 0 {
        seq![]
    } else {
        let before = warnings(ids, lessons, n - 1);
        let row = warnings_about(ids, lessons, n - 1, lessons.len() as int);
        let all = warnings(ids, lessons, n);
        let a = lemma_pairs(ids, lessons, n - 1);
        let b = lemma_pairs_about(ids, lessons, n - 1, lessons.len() as int);
        let pairs = a + b;
        assert forall|m: int| 0 <= m < pairs.len() implies {
            let pair = #[trigger] pairs[m];
            &&& 0 <= pair.0 < n
            &&& pair.0 < pair.1 < lessons.len()
            &&& warns_of(ids, lessons, pair.0, pair.1, all[m])
        } by {
            if m < a.len() {
                assert(pairs[m] == a[m]);
                assert(all[m] == before[m]);
            } else {
                assert(pairs[m] == b[m - a.len()]);
                assert(all[m] == row[m - a.len()]);
            }
        }
        assert forall|m: int, l: int| 0 <= m < l < pairs.len() implies comes_before(
            #[trigger] pairs[m],
            #[trigger] pairs[l],
        ) by {
            if l < a.len() {
                assert(pairs[m] == a[m] && pairs[l] == a[l]);
            } else if m < a.len() {
                assert(pairs[m] == a[m] && pairs[l] == b[l - a.len()]);
            } else {
                assert(pairs[m] == b[m - a.len()] && pairs[l] == b[l - a.len()]);
            }
        }
        pairs
    }
}

/// No two constraints are warned about twice, and warnings stand in the order of the constraints: by the
/// older of the two, and then by the newer.
pub proof fn lemma_warnings_are_in_order(state: State, session: Seq<char>)
    ensures
        exists|pairs: Seq<(int, int)>|
            are_about(conflicts(state, session), state.slots, session, pairs),
{
    let query = Query::in_state(session, "FUTURE"@);
    let which = |slot: SlotView| is_constraint_of(session, slot);
    let slots = constraints(state, session);
    let ids = ids_of(slots);
    let lessons = lower_lessons(slots);
    let found = conflicts(state, session);
    assert forall|slot: SlotView| #[trigger] which(slot) == query.picks(slot) by {}
    lemma_selected_lists(state.slots, query, which);
    let places = choose|places: Seq<int>| is_listed(slots, state.slots, which, places);
    let inner = lemma_pairs(ids, lessons, slots.len() as int);
    let pairs = Seq::new(inner.len(), |m: int| (places[inner[m].0], places[inner[m].1]));
    assert forall|m: int| 0 <= m < found.len() implies tells_of_pair(
        state.slots,
        session,
        #[trigger] pairs[m],
        found[m],
    ) by {
        let p = inner[m].0;
        let q = inner[m].1;
        lemma_warns_of(slots, p, q, found[m]);
        let k = choose|k: int| #[trigger]
            first_disagreement(slots[p], slots[q], k) && found[m] == said_of(
                slots[p],
                slots[q],
                opposites(k),
            );
        assert(places[p] < places[q]);
        assert(tells_of(state.slots, session, pairs[m].0, pairs[m].1, k, found[m]));
    }
    assert forall|m: int, n: int| 0 <= m < n < pairs.len() implies comes_before(
        #[trigger] pairs[m],
        #[trigger] pairs[n],
    ) by {
        assert(comes_before(inner[m], inner[n]));
        if inner[m].0 < inner[n].0 {
            assert(places[inner[m].0] < places[inner[n].0]);
        } else {
            assert(places[inner[m].1] < places[inner[n].1]);
        }
    }
    assert(are_about(found, state.slots, session, pairs));
}

} // verus!

//! Which lessons are merged, and what they are merged into.
use vstd::prelude::*;
use crate::casing::lowercase;
use crate::consolidation::{
    constraints, distinct, distinct_lessons_of, fitting, lemma_merged_is_bounded, lesson_keys,
    lessons_of, merged, merged_text, newest,
};
use crate::effects::is_constraint_of;
use crate::memory::State;
use crate::slot::{selected, Query, SlotView};
use crate::text::{decimal, join, trim};
use crate::text_laws::{is_part, lemma_join_further, lemma_part_of_part};

verus! {

/// Whether a slot is a constraint of a session and has a lesson.
pub open spec fn teaches(session: Seq<char>, slot: SlotView) -> bool {
    is_constraint_of(session, slot) && slot.learning_summary is Some
}

/// Whether two slots teach the same: their whole lessons, trimmed, are equal in lower case.
pub open spec fn teach_the_same(a: SlotView, b: SlotView) -> bool {
    lowercase(trim(a.learning_summary->0)) == lowercase(trim(b.learning_summary->0))
}

/// Whether the `i`-th slot teaches what no earlier slot of the session's constraints does.
pub open spec fn teaches_first(slots: Seq<SlotView>, session: Seq<char>, i: int) -> bool {
    &&& 0 <= i < slots.len()
    &&& teaches(session, slots[i])
    &&& forall|j: int|
        0 <= j < i && teaches(session, #[trigger] slots[j]) ==> !teach_the_same(slots[j], slots[i])
}

/// Whether `places` are those of all slots that teach something first, in order, and `lessons` are what
/// they teach, trimmed.
pub open spec fn are_first_lessons(
    lessons: Seq<Seq<char>>,
    slots: Seq<SlotView>,
    session: Seq<char>,
    places: Seq<int>,
) -> bool {
    &&& places.len() == lessons.len()
    &&& forall|k: int|
        0 <= k < places.len() ==> {
            &&& teaches_first(slots, session, #[trigger] places[k])
            &&& lessons[k] == trim(slots[places[k]].learning_summary->0)
        }
    &&& forall|k: int, l: int|
        0 <= k < l < places.len() ==> #[trigger] places[k] < #[trigger] places[l]
    &&& forall|i: int| #[trigger] teaches_first(slots, session, i) ==> places.contains(i)
}

/// A key is that of a lesson exactly where a slot teaches it.
proof fn lemma_taught_keys(slots: Seq<SlotView>, session: Seq<char>, key: Seq<char>)
    ensures
        lesson_keys(lessons_of(selected(slots, Query::in_state(session, "FUTURE"@)))).contains(key)
            <==> exists|j: int|
            0 <= j < slots.len() && teaches(session, #[trigger] slots[j]) && lowercase(
                trim(slots[j].learning_summary->0),
            ) == key,
    decreases slots.len(),
{
    let query = Query::in_state(session, "FUTURE"@);
    let keys = lesson_keys(lessons_of(selected(slots, query)));
    if slots.len() > 0 {
        let front = slots.drop_last();
        let slot = slots.last();
        let n = slots.len() - 1;
        lemma_taught_keys(front, session, key);
        let before = selected(front, query);
        let old_keys = lesson_keys(lessons_of(before));
        if query.picks(slot) {
            assert(before.push(slot).drop_last() =~= before);
            if let Some(lesson) = slot.learning_summary {
                assert(keys =~= old_keys.push(lowercase(trim(lesson))));
                assert(keys.last() == lowercase(trim(lesson)));
            }
        }
        if keys.contains(key) {
            let k = choose|k: int| 0 <= k < keys.len() && keys[k] == key;
            if k < old_keys.len() {
                assert(old_keys[k] == key);
                let j = choose|j: int|
                    0 <= j < front.len() && teaches(session, #[trigger] front[j]) && lowercase(
                        trim(front[j].learning_summary->0),
                    ) == key;
                assert(slots[j] == front[j]);
            } else {
                assert(slots[n] == slot && teaches(session, slots[n]));
            }
        }
        if exists|j: int|
            0 <= j < slots.len() && teaches(session, #[trigger] slots[j]) && lowercase(
                trim(slots[j].learning_summary->0),
            ) == key {
            let j = choose|j: int|
                0 <= j < slots.len() && teaches(session, #[trigger] slots[j]) && lowercase(
                    trim(slots[j].learning_summary->0),
                ) == key;
            if j < n {
                assert(front[j] == slots[j]);
                let k = choose|k: int| 0 <= k < old_keys.len() && old_keys[k] == key;
                assert(keys[k] == key);
            } else {
                assert(keys[keys.len() - 1] == key);
            }
        }
    } else {
        assert(keys.len() == 0);
    }
}

/// `lemma_merged_lessons` on slots.
proof fn lemma_first_lessons(slots: Seq<SlotView>, session: Seq<char>) -> (places: Seq<int>)
    ensures
        are_first_lessons(
            distinct_lessons_of(selected(slots, Query::in_state(session, "FUTURE"@))),
            slots,
            session,
            places,
        ),
    decreases slots.len(),
{
    let query = Query::in_state(session, "FUTURE"@);
    if slots.len() == 0 {
        assert(lessons_of(selected(slots, query)).len() == 0);
        seq![]
    } else {
        let front = slots.drop_last();
        let slot = slots.last();
        let n = slots.len() - 1;
        let old_places = lemma_first_lessons(front, session);
        let before = selected(front, query);
        let old_lessons = lessons_of(before);
        let old_keys = lesson_keys(old_lessons);
        let kept = distinct(old_lessons, old_keys);
        assert forall|i: int| 0 <= i < n implies teaches_first(slots, session, i) == teaches_first(
            front,
            session,
            i,
        ) by {
            assert forall|j: int| 0 <= j <= i implies slots[j] == front[j] by {}
        }
        if teaches(session, slot) {
            let key = lowercase(trim(slot.learning_summary->0));
            lemma_taught_keys(front, session, key);
            assert(before.push(slot).drop_last() =~= before);
            let lessons = lessons_of(before.push(slot));
            let keys = lesson_keys(lessons);
            assert(lessons.drop_last() =~= old_lessons);
            assert(keys.drop_last() =~= old_keys);
            assert(keys.last() == key);
            assert(slots[n] == slot);
            if old_keys.contains(key) {
                let j = choose|j: int|
                    0 <= j < front.len() && teaches(session, #[trigger] front[j]) && lowercase(
                        trim(front[j].learning_summary->0),
                    ) == key;
                assert(slots[j] == front[j]);
                assert(!teaches_first(slots, session, n));
                assert(are_first_lessons(kept, slots, session, old_places));
                old_places
            } else {
                assert(teaches_first(slots, session, n)) by {
                    assert forall|j: int|
                        0 <= j < n && teaches(session, #[trigger] slots[j]) implies !teach_the_same(
                        slots[j],
                        slots[n],
                    ) by {
                        assert(front[j] == slots[j]);
                    }
                }
                let places = old_places.push(n);
                let all = kept.push(trim(slot.learning_summary->0));
                assert forall|i: int| #[trigger] teaches_first(slots, session, i) implies places.contains(
                    i,
                ) by {
                    if i < n {
                        assert(old_places.contains(i));
                        let k = choose|k: int| 0 <= k < old_places.len() && old_places[k] == i;
                        assert(places[k] == i);
                    } else {
                        assert(places[old_places.len() as int] == i);
                    }
                }
                assert forall|k: int| 0 <= k < places.len() implies teaches_first(
                    slots,
                    session,
                    #[trigger] places[k],
                ) && all[k] == trim(slots[places[k]].learning_summary->0) by {
                    if k < old_places.len() {
                        assert(places[k] == old_places[k]);
                        assert(teaches_first(front, session, old_places[k]));
                    }
                }
                assert forall|k: int, l: int| 0 <= k < l < places.len() implies #[trigger] places[k]
                    < #[trigger] places[l] by {
                    assert(places[k] == old_places[k]);
                    assert(teaches_first(front, session, old_places[k]));
                    if l < old_places.len() {
                        assert(places[l] == old_places[l]);
                    }
                }
                assert(are_first_lessons(all, slots, session, places));
                places
            }
        } else {
            assert(slots[n] == slot);
            assert(!teaches_first(slots, session, n));
            if query.picks(slot) {
                assert(before.push(slot).drop_last() =~= before);
            }
            assert(are_first_lessons(kept, slots, session, old_places));
            old_places
        }
    }
}

/// The lessons that are merged are those of the session's constraints, trimmed and oldest first. A lesson
/// is left out exactly where an earlier one is the same, as a whole and in lower case.
pub proof fn lemma_merged_lessons(state: State, session: Seq<char>)
    ensures
        exists|places: Seq<int>|
            are_first_lessons(
                distinct_lessons_of(constraints(state, session)),
                state.slots,
                session,
                places,
            ),
{
    let places = lemma_first_lessons(state.slots, session);
    assert(are_first_lessons(
        distinct_lessons_of(constraints(state, session)),
        state.slots,
        session,
        places,
    ));
}

/// Whether `text` is what the lessons of a session's constraints are merged into: each that no earlier one
/// repeats, as a whole and in lower case.
pub open spec fn merges_first_lessons(
    text: Option<Seq<char>>,
    slots: Seq<SlotView>,
    session: Seq<char>,
) -> bool {
    exists|lessons: Seq<Seq<char>>, places: Seq<int>| #[trigger]
        are_first_lessons(lessons, slots, session, places) && text == Some(merged(lessons))
}

/// A lesson that no earlier constraint of the session teaches is among those that are merged.
pub proof fn lemma_new_lesson_is_merged(state: State, session: Seq<char>, i: int)
    requires
        0 <= i < state.slots.len(),
        state.slots[i].session_id == session,
        state.slots[i].temporal_state == "FUTURE"@,
        state.slots[i].learning_summary is Some,
        forall|j: int|
            0 <= j < i && (#[trigger] state.slots[j]).session_id == session
                && state.slots[j].temporal_state == "FUTURE"@ && state.slots[j].learning_summary is Some
                ==> lowercase(trim(state.slots[j].learning_summary->0)) != lowercase(
                trim(state.slots[i].learning_summary->0),
            ),
    ensures
        distinct_lessons_of(constraints(state, session)).contains(
            trim(state.slots[i].learning_summary->0),
        ),
{
    let lessons = distinct_lessons_of(constraints(state, session));
    let places = lemma_first_lessons(state.slots, session);
    assert(teaches_first(state.slots, session, i));
    let k = choose|k: int| 0 <= k < places.len() && places[k] == i;
    assert(lessons[k] == trim(state.slots[i].learning_summary->0));
}

/// Parts that are joined stand in what they are joined into.
pub proof fn lemma_joined_parts(parts: Seq<Seq<char>>, separator: Seq<char>, i: int)
    requires
        0 <= i < parts.len(),
    ensures
        is_part(parts[i], join(parts, separator)),
    decreases parts.len(),
{
    let front = parts.drop_last();
    let nothing = Seq::<char>::empty();
    assert(front.push(parts.last()) =~= parts);
    lemma_join_further(front, parts.last(), separator);
    if parts.len() == 1 {
        assert(parts =~= seq![parts.last()]);
        assert(join(parts, separator) =~= nothing + parts[i] + nothing);
    } else if i == parts.len() - 1 {
        let a = join(front, separator) + separator;
        assert(join(parts, separator) =~= a + parts[i] + nothing);
    } else {
        lemma_joined_parts(front, separator, i);
        let rest = separator + parts.last();
        lemma_part_of_part(nothing, join(front, separator), rest, parts[i]);
        assert(join(parts, separator) =~= nothing + join(front, separator) + rest);
    }
}

/// What lessons are merged into, where the newest `kept` are kept.
pub open spec fn merged_from(lessons: Seq<Seq<char>>, kept: int) -> Seq<char> {
    let all = lessons.len() as int;
    let kept_lessons = join(lessons.subrange(all - kept, all), " | "@);
    if kept == all {
        "[CONSOLIDATED CONSTRAINTS from "@ + decimal(all) + " prior lessons]: "@ + kept_lessons
    } else {
        "[CONSOLIDATED CONSTRAINTS from "@ + decimal(all) + " lessons, truncated to "@ + decimal(kept)
            + " newest]: "@ + kept_lessons
    }
}

/// Merging keeps all lessons where that takes no more than 2000 characters, and else as many of the
/// newest as do. Those that it keeps stand in the merged text whole.
pub proof fn lemma_what_is_kept(lessons: Seq<Seq<char>>) -> (kept: int)
    requires
        lessons.len() <= u64::MAX,
    ensures
        0 <= kept <= lessons.len(),
        merged(lessons) == merged_from(lessons, kept),
        merged(lessons).len() <= 2000,
        forall|more: int|
            kept < more <= lessons.len() ==> (#[trigger] merged_from(lessons, more)).len() > 2000,
        merged_from(lessons, lessons.len() as int).len() <= 2000 ==> kept == lessons.len(),
        forall|i: int|
            lessons.len() - kept <= i < lessons.len() ==> is_part(
                #[trigger] lessons[i],
                merged(lessons),
            ),
{
    let n = lessons.len() as int;
    let kept = fitting(lessons, n);
    lemma_merged_is_bounded(lessons);
    assert forall|k: int| 0 <= k <= n implies #[trigger] merged_from(lessons, k) == merged_text(
        lessons,
        k,
    ) by {
        assert(lessons.subrange(n - k, n) =~= lessons.skip(n - k));
    }
    assert forall|more: int| kept < more <= n implies (#[trigger] merged_from(lessons, more)).len()
        > 2000 by {
        assert(merged_text(lessons, more).len() > 2000);
    }
    let nothing = Seq::<char>::empty();
    assert forall|i: int| n - kept <= i < n implies is_part(#[trigger] lessons[i], merged(lessons)) by {
        let parts = lessons.subrange(n - kept, n);
        let joined = join(parts, " | "@);
        let start = if kept == n {
            "[CONSOLIDATED CONSTRAINTS from "@ + decimal(n) + " prior lessons]: "@
        } else {
            "[CONSOLIDATED CONSTRAINTS from "@ + decimal(n) + " lessons, truncated to "@ + decimal(kept)
                + " newest]: "@
        };
        lemma_joined_parts(parts, " | "@, i - (n - kept));
        lemma_part_of_part(start, joined, nothing, lessons[i]);
        assert(merged_from(lessons, kept) =~= start + joined + nothing);
    }
    kept
}

} // verus!

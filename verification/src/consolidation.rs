//! Consolidation: many constraints of a session become one.
use vstd::prelude::*;
use crate::casing::lowercase;
use crate::effects::{is_constraint_of, lemma_consolidating, moved_to_past};
use crate::lessons::{are_first_lessons, lemma_merged_lessons, merges_first_lessons};
use crate::memory::{ChangeView, Memory, State};
use crate::slot::{at_places, ids_of, selected, views, Query, Selection, SlotView, DERIVED, FUTURE};
use crate::text::{chars_of, decimal, digits, join, push_count, strings, trim, trimmed_text};

verus! {

/// How many constraints a session may have before they are merged.
pub const FUTURE_CONSOLIDATION_THRESHOLD: usize = 5;

/// How many characters a merged constraint may have.
pub const MAX_CONSOLIDATED_CHARS: usize = 2000;

/// What stands between two lessons of a merged constraint.
pub const SEPARATOR: &'static str = " | ";

/// The constraints of a session, oldest first.
pub open spec fn constraints(state: State, session: Seq<char>) -> Seq<SlotView> {
    selected(state.slots, Query::in_state(session, FUTURE@))
}

/// The trimmed lessons of those slots that have one.
pub open spec fn lessons_of(slots: Seq<SlotView>) -> Seq<Seq<char>>
    decreases slots.len(),
{
    if slots.len() == 0 {
        seq![]
    } else {
        let before = lessons_of(slots.drop_last());
        match slots.last().learning_summary {
            Some(lesson) => before.push(trim(lesson)),
            None => before,
        }
    }
}

/// The lessons whose key no earlier lesson has.
pub open spec fn distinct(lessons: Seq<Seq<char>>, keys: Seq<Seq<char>>) -> Seq<Seq<char>>
    decreases keys.len(),
{
    if keys.len() == 0 || lessons.len() != keys.len() {
        seq![]
    } else {
        let before = distinct(lessons.drop_last(), keys.drop_last());
        if keys.drop_last().contains(keys.last()) {
            before
        } else {
            before.push(lessons.last())
        }
    }
}

/// The lower case forms of lessons, by which two of them are the same.
pub open spec fn lesson_keys(lessons: Seq<Seq<char>>) -> Seq<Seq<char>> {
    Seq::new(lessons.len(), |i: int| lowercase(lessons[i]))
}

/// The lessons of a list of slots, without those that repeat an earlier one but for case.
pub open spec fn distinct_lessons_of(slots: Seq<SlotView>) -> Seq<Seq<char>> {
    distinct(lessons_of(slots), lesson_keys(lessons_of(slots)))
}

/// The newest `k` lessons, joined.
pub open spec fn newest(lessons: Seq<Seq<char>>, k: int) -> Seq<char> {
    join(lessons.skip(lessons.len() - k), SEPARATOR@)
}

/// The constraint that `lessons` are merged into, of which the newest `kept` are kept.
pub open spec fn merged_text(lessons: Seq<Seq<char>>, kept: int) -> Seq<char> {
    let total = lessons.len() as int;
    let start = "[CONSOLIDATED CONSTRAINTS from "@ + decimal(total);
    if kept < total {
        start + " lessons, truncated to "@ + decimal(kept) + " newest]: "@ + newest(lessons, kept)
    } else {
        start + " prior lessons]: "@ + newest(lessons, kept)
    }
}

/// The largest number, up to `k`, of newest lessons that can be kept.
pub open spec fn fitting(lessons: Seq<Seq<char>>, k: int) -> int
    decreases k,
{
    if k <= 0 || merged_text(lessons, k).len() <= MAX_CONSOLIDATED_CHARS {
        k
    } else {
        fitting(lessons, k - 1)
    }
}

/// The constraint that distinct lessons are merged into: as many of the newest as fit.
pub open spec fn merged(lessons: Seq<Seq<char>>) -> Seq<char> {
    merged_text(lessons, fitting(lessons, lessons.len() as int))
}

/// Whether a session's constraints are merged: they are too many, and one of them has a lesson.
pub open spec fn merges(state: State, session: Seq<char>) -> bool {
    &&& constraints(state, session).len() > FUTURE_CONSOLIDATION_THRESHOLD
    &&& lessons_of(constraints(state, session)).len() > 0
}

/// The memory after a session's constraints have been merged, where they are.
pub open spec fn consolidated(state: State, session: Seq<char>) -> State {
    if merges(state, session) {
        let slots = constraints(state, session);
        let moved = state.step(ChangeView::ArchiveSlots(ids_of(slots)));
        let text = merged(distinct_lessons_of(slots));
        moved.step(ChangeView::InsertSlot(moved.future_slot(session, text, DERIVED@)))
    } else {
        state
    }
}

/// A number below a power of ten has no more digits than the power says.
proof fn lemma_digits(n: nat, k: nat, bound: nat)
    requires
        k >= 1,
        bound == power_of_ten(k),
        n < bound,
    ensures
        digits(n).len() <= k,
    decreases k,
{
    if n >= 10 {
        assert(k >= 2) by {
            reveal_with_fuel(power_of_ten, 2);
        }
        lemma_digits(n / 10, (k - 1) as nat, power_of_ten((k - 1) as nat));
    }
}

/// Ten to the `k`.
spec fn power_of_ten(k: nat) -> nat
    decreases k,
{
    if k == 0 {
        1
    } else {
        10 * power_of_ten((k - 1) as nat)
    }
}

/// A count that fits in 64 bits has 20 digits at most.
proof fn lemma_count_is_short(n: int)
    requires
        0 <= n <= u64::MAX,
    ensures
        decimal(n).len() <= 20,
{
    assert(power_of_ten(20) == 100_000_000_000_000_000_000) by {
        reveal_with_fuel(power_of_ten, 21);
    }
    lemma_digits(n as nat, 20, power_of_ten(20));
}

/// `fitting` stops at the first number that fits.
proof fn lemma_fitting_bounds(lessons: Seq<Seq<char>>, k: int)
    requires
        0 <= k <= lessons.len(),
    ensures
        0 <= fitting(lessons, k) <= k,
        fitting(lessons, k) == 0 || merged_text(lessons, fitting(lessons, k)).len()
            <= MAX_CONSOLIDATED_CHARS,
        forall|n: int|
            fitting(lessons, k) < n <= k ==> (#[trigger] merged_text(lessons, n)).len()
                > MAX_CONSOLIDATED_CHARS,
    decreases k,
{
    if k > 0 && merged_text(lessons, k).len() > MAX_CONSOLIDATED_CHARS {
        lemma_fitting_bounds(lessons, k - 1);
    }
}

/// A merged constraint is bounded, whatever it is merged from: all of it has no more characters than it
/// may. It keeps as many of the newest lessons as that allows: with any more it would be too long.
pub proof fn lemma_merged_is_bounded(lessons: Seq<Seq<char>>)
    requires
        lessons.len() <= u64::MAX,
    ensures
        merged(lessons).len() <= MAX_CONSOLIDATED_CHARS,
        0 <= fitting(lessons, lessons.len() as int) <= lessons.len(),
        forall|n: int|
            fitting(lessons, lessons.len() as int) < n <= lessons.len() ==> (
            #[trigger] merged_text(lessons, n)).len() > MAX_CONSOLIDATED_CHARS,
{
    let total = lessons.len() as int;
    lemma_fitting_bounds(lessons, total);
    lemma_count_is_short(total);
    lemma_count_is_short(0);
    reveal_strlit("[CONSOLIDATED CONSTRAINTS from ");
    reveal_strlit(" lessons, truncated to ");
    reveal_strlit(" newest]: ");
    reveal_strlit(" prior lessons]: ");
    assert(newest(lessons, 0).len() == 0) by {
        assert(lessons.skip(total).len() == 0);
    }
    assert(merged_text(lessons, 0).len() <= MAX_CONSOLIDATED_CHARS);
}

/// Merging drops no lesson that has no earlier twin: each key is that of a lesson that is kept, and
/// no two lessons that are kept have the same key.
pub proof fn lemma_distinct(lessons: Seq<Seq<char>>, keys: Seq<Seq<char>>)
    requires
        lessons.len() == keys.len(),
    ensures
        distinct(lessons, keys).len() <= lessons.len(),
        lessons.len() > 0 ==> distinct(lessons, keys).len() > 0,
        forall|i: int|
            0 <= i < keys.len() && !keys.take(i).contains(#[trigger] keys[i]) ==> distinct(
                lessons,
                keys,
            ).contains(lessons[i]),
        forall|k: int|
            0 <= k < distinct(lessons, keys).len() ==> exists|i: int|
                0 <= i < keys.len() && #[trigger] lessons[i] == #[trigger] distinct(lessons, keys)[k]
                    && !keys.take(i).contains(keys[i]),
    decreases keys.len(),
{
    if keys.len() > 0 {
        let n = keys.len() - 1;
        let front = keys.drop_last();
        let before = distinct(lessons.drop_last(), front);
        let all = distinct(lessons, keys);
        lemma_distinct(lessons.drop_last(), front);
        assert(keys.take(n) =~= front);
        if n == 0 {
            assert(front.len() == 0);
        }
        assert forall|i: int|
            0 <= i < keys.len() && !keys.take(i).contains(#[trigger] keys[i]) implies all.contains(
            lessons[i],
        ) by {
            if i < n {
                assert(front.take(i) =~= keys.take(i));
                assert(front[i] == keys[i]);
                assert(before.contains(lessons.drop_last()[i]));
                let k = choose|k: int| 0 <= k < before.len() && before[k] == lessons[i];
                assert(all[k] == lessons[i]);
            } else {
                assert(all[all.len() - 1] == lessons[i]);
            }
        }
        assert forall|k: int| 0 <= k < all.len() implies exists|i: int|
            0 <= i < keys.len() && #[trigger] lessons[i] == #[trigger] all[k] && !keys.take(
                i,
            ).contains(keys[i]) by {
            if k < before.len() {
                assert(all[k] == before[k]);
                let i = choose|i: int|
                    0 <= i < front.len() && #[trigger] lessons.drop_last()[i] == before[k]
                        && !front.take(i).contains(front[i]);
                assert(front.take(i) =~= keys.take(i));
                assert(lessons[i] == all[k]);
            } else {
                assert(lessons[n] == all[k]);
            }
        }
    }
}

/// Whether `text` is among the first `n` of `list`.
fn occurs_before(list: &Vec<String>, n: usize, text: &String) -> (yes: bool)
    requires
        n <= list@.len(),
    ensures
        yes == strings(list@).take(n as int).contains(text@),
{
    let ghost all = strings(list@).take(n as int);
    let mut i: usize = 0;
    while i < n
        invariant
            i <= n <= list@.len(),
            all == strings(list@).take(n as int),
            forall|j: int| 0 <= j < i ==> all[j] != text@,
        decreases n - i,
    {
        assert(all[i as int] == list@[i as int]@);
        if list[i] == *text {
            return true;
        }
        i += 1;
    }
    false
}

/// Keeps the lessons whose key no earlier lesson has.
pub fn keep_distinct(lessons: &Vec<String>, keys: &Vec<String>) -> (kept: Vec<String>)
    requires
        lessons@.len() == keys@.len(),
    ensures
        strings(kept@) == distinct(strings(lessons@), strings(keys@)),
{
    let ghost all = strings(lessons@);
    let ghost marks = strings(keys@);
    let mut kept: Vec<String> = Vec::new();
    let mut i: usize = 0;
    while i < lessons.len()
        invariant
            i <= lessons@.len(),
            lessons@.len() == keys@.len(),
            all == strings(lessons@),
            marks == strings(keys@),
            strings(kept@) == distinct(all.take(i as int), marks.take(i as int)),
        decreases lessons@.len() - i,
    {
        let ghost done = strings(kept@);
        assert(all.take(i + 1).drop_last() =~= all.take(i as int));
        assert(marks.take(i + 1).drop_last() =~= marks.take(i as int));
        assert(marks.take(i + 1).last() == keys@[i as int]@);
        assert(all.take(i + 1).last() == lessons@[i as int]@);
        if !occurs_before(keys, i, &keys[i]) {
            kept.push(lessons[i].clone());
            assert(strings(kept@) =~= done.push(all[i as int]));
        }
        i += 1;
    }
    assert(all.take(i as int) =~= all);
    assert(marks.take(i as int) =~= marks);
    kept
}

/// `newest` on a list.
fn join_newest(lessons: &Vec<String>, k: usize) -> (text: String)
    requires
        k <= lessons@.len(),
    ensures
        text@ == newest(strings(lessons@), k as int),
{
    let ghost parts = strings(lessons@).skip(lessons@.len() - k);
    let start: usize = lessons.len() - k;
    let mut text = String::new();
    let mut i: usize = start;
    assert(parts.take(0) =~= seq![]);
    while i < lessons.len()
        invariant
            start <= i <= lessons@.len(),
            start == lessons@.len() - k,
            parts == strings(lessons@).skip(start as int),
            text@ == join(parts.take(i - start), SEPARATOR@),
        decreases lessons@.len() - i,
    {
        if i > start {
            text.append(SEPARATOR);
        }
        text.append(lessons[i].as_str());
        let ghost now = parts.take(i - start + 1);
        assert(now.drop_last() =~= parts.take(i - start));
        assert(now.last() == lessons@[i as int]@);
        assert(text@ =~= join(now, SEPARATOR@));
        i += 1;
    }
    assert(parts.take(i - start) =~= parts);
    text
}

/// `merged_text` on a list.
fn write_merged(lessons: &Vec<String>, kept: usize) -> (text: String)
    requires
        kept <= lessons@.len(),
    ensures
        text@ == merged_text(strings(lessons@), kept as int),
{
    let total: usize = lessons.len();
    let body = join_newest(lessons, kept);
    let mut text = "[CONSOLIDATED CONSTRAINTS from ".to_owned();
    push_count(&mut text, total);
    if kept < total {
        text.append(" lessons, truncated to ");
        push_count(&mut text, kept);
        text.append(" newest]: ");
    } else {
        text.append(" prior lessons]: ");
    }
    text.append(body.as_str());
    text
}

/// Merges distinct lessons into one constraint.
pub fn merge_lessons(lessons: &Vec<String>) -> (text: String)
    ensures
        text@ == merged(strings(lessons@)),
        text@.len() <= MAX_CONSOLIDATED_CHARS,
{
    let ghost all = strings(lessons@);
    let mut kept: usize = lessons.len();
    proof {
        lemma_merged_is_bounded(all);
    }
    let mut text = write_merged(lessons, kept);
    while kept > 0 && chars_of(text.as_str()).len() > MAX_CONSOLIDATED_CHARS
        invariant
            kept <= lessons@.len(),
            all == strings(lessons@),
            text@ == merged_text(all, kept as int),
            fitting(all, all.len() as int) == fitting(all, kept as int),
        decreases kept,
    {
        kept -= 1;
        text = write_merged(lessons, kept);
    }
    text
}

/// The trimmed lessons of the slots at the given places, and their lower case forms.
fn gather_lessons(memory: &Memory, at: &Vec<usize>) -> (all: (Vec<String>, Vec<String>))
    requires
        forall|k: int| 0 <= k < at@.len() ==> #[trigger] at@[k] < memory@.slots.len(),
    ensures
        strings(all.0@) == lessons_of(at_places(memory@.slots, at@)),
        strings(all.1@) == lesson_keys(lessons_of(at_places(memory@.slots, at@))),
{
    let ghost picked = at_places(memory@.slots, at@);
    let slots = memory.slots();
    let mut lessons: Vec<String> = Vec::new();
    let mut keys: Vec<String> = Vec::new();
    let mut k: usize = 0;
    assert(strings(keys@) =~= lesson_keys(strings(lessons@)));
    while k < at.len()
        invariant
            k <= at@.len(),
            views(slots@) == memory@.slots,
            picked == at_places(memory@.slots, at@),
            forall|j: int| 0 <= j < at@.len() ==> #[trigger] at@[j] < memory@.slots.len(),
            strings(lessons@) == lessons_of(picked.take(k as int)),
            strings(keys@) == lesson_keys(strings(lessons@)),
        decreases at@.len() - k,
    {
        assert(at@[k as int] < memory@.slots.len());
        let slot = &slots[at[k]];
        assert(picked[k as int] == slot@);
        assert(picked.take(k + 1).drop_last() =~= picked.take(k as int));
        assert(picked.take(k + 1).last() == slot@);
        if let Some(text) = &slot.learning_summary {
            let ghost done = strings(lessons@);
            let ghost marks = strings(keys@);
            let lesson = trimmed_text(text.as_str());
            let key = lesson.as_str().to_lowercase();
            keys.push(key);
            lessons.push(lesson);
            assert(strings(lessons@) =~= done.push(lesson@));
            assert(strings(keys@) =~= marks.push(key@));
            assert(strings(keys@) =~= lesson_keys(strings(lessons@)));
        }
        k += 1;
    }
    assert(picked.take(k as int) =~= picked);
    (lessons, keys)
}

/// Merges a session's constraints into one where there are more than the threshold, and moves them to
/// the past. Returns whether it did.
pub fn consolidate_future_constraints(memory: &mut Memory, session_id: &str) -> (done: bool)
    requires
        old(memory)@.valid(),
        merges(old(memory)@, session_id@) ==> old(memory)@.room(1),
    ensures
        final(memory)@.valid(),
        done == merges(old(memory)@, session_id@),
        final(memory)@ == consolidated(old(memory)@, session_id@),
        done ==> merged(distinct_lessons_of(constraints(old(memory)@, session_id@))).len()
            <= MAX_CONSOLIDATED_CHARS,
        done ==> merges_first_lessons(
            final(memory)@.slots.last().learning_summary,
            old(memory)@.slots,
            session_id@,
        ),
        done ==> forall|i: int|
            0 <= i < old(memory)@.slots.len() ==> #[trigger] final(memory)@.slots[i]
                == if is_constraint_of(session_id@, old(memory)@.slots[i]) {
                moved_to_past(old(memory)@.slots[i])
            } else {
                old(memory)@.slots[i]
            },
{
    proof {
        lemma_consolidating(memory@, session_id@);
        lemma_merged_lessons(memory@, session_id@);
    }
    let selection = Selection { session: session_id, state: Some(FUTURE), ids: None, logged: false };
    let at = memory.find(&selection);
    assert(at_places(memory@.slots, at@) == constraints(memory@, session_id@));
    if at.len() <= FUTURE_CONSOLIDATION_THRESHOLD {
        return false;
    }
    let (lessons, keys) = gather_lessons(memory, &at);
    assert(strings(lessons@).len() == lessons@.len());
    assert(strings(keys@).len() == keys@.len());
    if lessons.len() == 0 {
        return false;
    }
    let text = merge_lessons(&keep_distinct(&lessons, &keys));
    let ids = memory.ids_at(&at);
    memory.archive(ids);
    memory.insert_future(session_id, text.as_str(), DERIVED);
    proof {
        let before = old(memory)@;
        let lessons = distinct_lessons_of(constraints(before, session_id@));
        let places = choose|places: Seq<int>|
            are_first_lessons(lessons, before.slots, session_id@, places);
        assert(are_first_lessons(lessons, before.slots, session_id@, places));
    }
    true
}

} // verus!

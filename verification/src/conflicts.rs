//! Conflicts: constraints of a session that contradict each other.
use vstd::prelude::*;
use crate::casing::lowercase;
use crate::consolidation::constraints;
use crate::memory::{Memory, State};
use crate::slot::{at_places, ids_of, views, Selection, SlotView, FUTURE};
use crate::text::{chars_of, contains, decimal, has, push_decimal, strings};

verus! {

/// Two phrases that contradict each other, as a value of the specification.
pub struct ContradictionView {
    pub one: Seq<char>,
    pub other: Seq<char>,
    pub description: Seq<char>,
}

/// Two phrases that contradict each other.
pub struct Contradiction {
    pub one: &'static str,
    pub other: &'static str,
    pub description: &'static str,
}

impl View for Contradiction {
    type V = ContradictionView;

    open spec fn view(&self) -> ContradictionView {
        ContradictionView {
            one: self.one@,
            other: self.other@,
            description: self.description@,
        }
    }
}

/// A contradiction between two phrases.
pub open spec fn between(one: Seq<char>, other: Seq<char>, description: Seq<char>) -> ContradictionView {
    ContradictionView { one, other, description }
}

/// The contradictions that are looked for, in order.
pub open spec fn contradictions() -> Seq<ContradictionView> {
    seq![
        between("retry"@, "never retry"@, "retry vs. never retry"@),
        between("retry"@, "do not retry"@, "retry vs. do not retry"@),
        between("use cache"@, "do not cache"@, "cache vs. do not cache"@),
        between("use cache"@, "never cache"@, "cache vs. never cache"@),
        between("use cache"@, "avoid cache"@, "cache vs. avoid cache"@),
        between("always retry"@, "stop retrying"@, "always retry vs. stop retrying"@),
        between("format!"@, "avoid format!"@, "format! vs. avoid format!"@),
        between("push_str"@, "avoid push_str"@, "push_str vs. avoid push_str"@),
        between("exponential backoff"@, "linear backoff"@, "exponential vs. linear backoff"@),
        between("connect directly"@, "use proxy"@, "direct connection vs. proxy"@),
    ]
}

/// Whether one lesson holds one phrase and the other lesson the other.
pub open spec fn clash(pattern: ContradictionView, a: Seq<char>, b: Seq<char>) -> bool {
    ||| contains(a, pattern.one) && contains(b, pattern.other)
    ||| contains(a, pattern.other) && contains(b, pattern.one)
}

/// The first contradiction from the `k`-th on between two lessons in lower case.
pub open spec fn clash_from(a: Seq<char>, b: Seq<char>, k: int) -> Option<ContradictionView>
    decreases contradictions().len() - k,
{
    if k < 0 || k >= contradictions().len() {
        None
    } else if clash(contradictions()[k], a, b) {
        Some(contradictions()[k])
    } else {
        clash_from(a, b, k + 1)
    }
}

/// What is said of two constraints that contradict each other.
pub open spec fn warning(a: i64, b: i64, pattern: ContradictionView) -> Seq<char> {
    "Constraint #"@ + decimal(a as int) + " vs #"@ + decimal(b as int) + ": "@ + pattern.description
        + " (\""@ + pattern.one + "\" ↔ \""@ + pattern.other + "\")"@
}

/// The warnings about the `i`-th constraint and those behind it, up to the `n`-th.
pub open spec fn warnings_about(ids: Seq<i64>, lessons: Seq<Seq<char>>, i: int, n: int) -> Seq<Seq<char>>
    decreases n - i,
{
    if n <= i + 1 {
        seq![]
    } else {
        let before = warnings_about(ids, lessons, i, n - 1);
        match clash_from(lessons[i], lessons[n - 1], 0) {
            Some(pattern) => before.push(warning(ids[i], ids[n - 1], pattern)),
            None => before,
        }
    }
}

/// The warnings about the first `n` constraints and those behind them: one for each pair that
/// contradict each other.
pub open spec fn warnings(ids: Seq<i64>, lessons: Seq<Seq<char>>, n: int) -> Seq<Seq<char>>
    decreases n,
{
    if n <= 0 {
        seq![]
    } else {
        warnings(ids, lessons, n - 1) + warnings_about(ids, lessons, n - 1, lessons.len() as int)
    }
}

/// The lessons of slots in lower case, empty where there is none.
pub open spec fn lower_lessons(slots: Seq<SlotView>) -> Seq<Seq<char>> {
    Seq::new(
        slots.len(),
        |i: int|
            lowercase(
                match slots[i].learning_summary {
                    Some(lesson) => lesson,
                    None => ""@,
                },
            ),
    )
}

/// The warnings about a session's constraints.
pub open spec fn conflicts(state: State, session: Seq<char>) -> Seq<Seq<char>> {
    let slots = constraints(state, session);
    warnings(ids_of(slots), lower_lessons(slots), slots.len() as int)
}

/// Whether two lessons contradict each other does not depend on which comes first.
pub proof fn lemma_clash_is_symmetric(a: Seq<char>, b: Seq<char>, k: int)
    ensures
        clash_from(a, b, k) == clash_from(b, a, k),
    decreases contradictions().len() - k,
{
    if 0 <= k < contradictions().len() {
        lemma_clash_is_symmetric(a, b, k + 1);
    }
}

/// Each pair of constraints is warned about at most once.
pub proof fn lemma_warnings_are_few(ids: Seq<i64>, lessons: Seq<Seq<char>>, n: int)
    requires
        ids.len() == lessons.len(),
        0 <= n <= lessons.len(),
    ensures
        2 * warnings(ids, lessons, n).len() <= n * (2 * lessons.len() - n - 1),
        lessons.len() < 2 ==> warnings(ids, lessons, n).len() == 0,
    decreases n,
{
    if n > 0 {
        let m = lessons.len() as int;
        lemma_warnings_are_few(ids, lessons, n - 1);
        lemma_few_about(ids, lessons, n - 1, m);
        assert(2 * (m - n) + (n - 1) * (2 * m - (n - 1) - 1) == n * (2 * m - n - 1)) by (nonlinear_arith);
    }
}

/// Whether `text` warns of the `i`-th and the `j`-th constraint.
pub open spec fn warns_of(
    ids: Seq<i64>,
    lessons: Seq<Seq<char>>,
    i: int,
    j: int,
    text: Seq<char>,
) -> bool {
    match clash_from(lessons[i], lessons[j], 0) {
        Some(pattern) => text == warning(ids[i], ids[j], pattern),
        None => false,
    }
}

/// Whether `text` warns of the `i`-th constraint and one behind it, before the `n`-th.
pub open spec fn warns_about(
    ids: Seq<i64>,
    lessons: Seq<Seq<char>>,
    i: int,
    n: int,
    text: Seq<char>,
) -> bool {
    exists|j: int| i < j < n && #[trigger] warns_of(ids, lessons, i, j, text)
}

/// Whether `text` warns of one of the first `n` constraints and one behind it.
pub open spec fn warns(ids: Seq<i64>, lessons: Seq<Seq<char>>, n: int, text: Seq<char>) -> bool {
    exists|i: int| 0 <= i < n && #[trigger] warns_about(ids, lessons, i, lessons.len() as int, text)
}

/// Every pair of constraints that contradict each other is warned about, and every warning is about
/// such a pair.
pub proof fn lemma_warnings_are_complete(ids: Seq<i64>, lessons: Seq<Seq<char>>, n: int)
    requires
        ids.len() == lessons.len(),
        0 <= n <= lessons.len(),
    ensures
        forall|i: int, j: int, text: Seq<char>|
            0 <= i < n && i < j < lessons.len() && #[trigger] warns_of(ids, lessons, i, j, text)
                ==> warnings(ids, lessons, n).contains(text),
        forall|k: int|
            0 <= k < warnings(ids, lessons, n).len() ==> warns(
                ids,
                lessons,
                n,
                #[trigger] warnings(ids, lessons, n)[k],
            ),
    decreases n,
{
    if n > 0 {
        let m = lessons.len() as int;
        let before = warnings(ids, lessons, n - 1);
        let row = warnings_about(ids, lessons, n - 1, m);
        let all = warnings(ids, lessons, n);
        lemma_warnings_are_complete(ids, lessons, n - 1);
        lemma_complete_about(ids, lessons, n - 1, m);
        assert forall|i: int, j: int, text: Seq<char>|
            0 <= i < n && i < j < lessons.len() && #[trigger] warns_of(
                ids,
                lessons,
                i,
                j,
                text,
            ) implies all.contains(text) by {
            if i < n - 1 {
                let k = choose|k: int| 0 <= k < before.len() && before[k] == text;
                assert(all[k] == text);
            } else {
                let k = choose|k: int| 0 <= k < row.len() && row[k] == text;
                assert(all[before.len() + k] == text);
            }
        }
        assert forall|k: int| 0 <= k < all.len() implies warns(
            ids,
            lessons,
            n,
            #[trigger] all[k],
        ) by {
            if k < before.len() {
                assert(all[k] == before[k]);
                let i = choose|i: int|
                    0 <= i < n - 1 && #[trigger] warns_about(ids, lessons, i, m, before[k]);
                assert(warns_about(ids, lessons, i, m, all[k]));
            } else {
                assert(all[k] == row[k - before.len()]);
                assert(warns_about(ids, lessons, n - 1, m, all[k]));
            }
        }
    }
}

/// The warnings about a constraint are those of the pairs that it makes with one behind it.
proof fn lemma_complete_about(ids: Seq<i64>, lessons: Seq<Seq<char>>, i: int, n: int)
    requires
        ids.len() == lessons.len(),
        0 <= i < n <= lessons.len(),
    ensures
        forall|j: int, text: Seq<char>|
            i < j < n && #[trigger] warns_of(ids, lessons, i, j, text) ==> warnings_about(
                ids,
                lessons,
                i,
                n,
            ).contains(text),
        forall|k: int|
            0 <= k < warnings_about(ids, lessons, i, n).len() ==> warns_about(
                ids,
                lessons,
                i,
                n,
                #[trigger] warnings_about(ids, lessons, i, n)[k],
            ),
    decreases n - i,
{
    if n > i + 1 {
        let before = warnings_about(ids, lessons, i, n - 1);
        let all = warnings_about(ids, lessons, i, n);
        lemma_complete_about(ids, lessons, i, n - 1);
        assert forall|j: int, text: Seq<char>|
            i < j < n && #[trigger] warns_of(ids, lessons, i, j, text) implies all.contains(text) by {
            if j < n - 1 {
                let k = choose|k: int| 0 <= k < before.len() && before[k] == text;
                assert(all[k] == text);
            } else {
                assert(all[all.len() - 1] == text);
            }
        }
        assert forall|k: int| 0 <= k < all.len() implies warns_about(
            ids,
            lessons,
            i,
            n,
            #[trigger] all[k],
        ) by {
            if k < before.len() {
                assert(all[k] == before[k]);
                let j = choose|j: int|
                    i < j < n - 1 && #[trigger] warns_of(ids, lessons, i, j, before[k]);
                assert(warns_of(ids, lessons, i, j, all[k]));
            } else {
                assert(warns_of(ids, lessons, i, n - 1, all[k]));
            }
        }
    }
}

/// A constraint is warned about at most once for each that stands behind it.
proof fn lemma_few_about(ids: Seq<i64>, lessons: Seq<Seq<char>>, i: int, n: int)
    requires
        0 <= i < n <= lessons.len(),
    ensures
        warnings_about(ids, lessons, i, n).len() <= n - i - 1,
    decreases n,
{
    if n > i + 1 {
        lemma_few_about(ids, lessons, i, n - 1);
    }
}

/// What a list of contradictions holds.
pub open spec fn contradiction_views(list: Seq<Contradiction>) -> Seq<ContradictionView> {
    Seq::new(list.len(), |i: int| list[i]@)
}

/// A contradiction between two phrases.
fn contradiction(one: &'static str, other: &'static str, description: &'static str) -> (c: Contradiction)
    ensures
        c@ == between(one@, other@, description@),
{
    Contradiction { one, other, description }
}

/// `contradictions` as a list.
fn contradiction_list() -> (list: Vec<Contradiction>)
    ensures
        contradiction_views(list@) == contradictions(),
{
    let list = vec![
        contradiction("retry", "never retry", "retry vs. never retry"),
        contradiction("retry", "do not retry", "retry vs. do not retry"),
        contradiction("use cache", "do not cache", "cache vs. do not cache"),
        contradiction("use cache", "never cache", "cache vs. never cache"),
        contradiction("use cache", "avoid cache", "cache vs. avoid cache"),
        contradiction("always retry", "stop retrying", "always retry vs. stop retrying"),
        contradiction("format!", "avoid format!", "format! vs. avoid format!"),
        contradiction("push_str", "avoid push_str", "push_str vs. avoid push_str"),
        contradiction("exponential backoff", "linear backoff", "exponential vs. linear backoff"),
        contradiction("connect directly", "use proxy", "direct connection vs. proxy"),
    ];
    assert(contradiction_views(list@) =~= contradictions());
    list
}

/// `clash_from` on two lessons: the place of the first contradiction between them.
fn find_clash(list: &Vec<Contradiction>, a: &String, b: &String) -> (at: Option<usize>)
    requires
        contradiction_views(list@) == contradictions(),
    ensures
        match at {
            Some(k) => k < list@.len() && clash_from(a@, b@, 0) == Some(list@[k as int]@),
            None => clash_from(a@, b@, 0) is None,
        },
{
    let a_chars = chars_of(a.as_str());
    let b_chars = chars_of(b.as_str());
    let x = a_chars.as_slice();
    let y = b_chars.as_slice();
    let mut k: usize = 0;
    while k < list.len()
        invariant
            k <= list@.len(),
            contradiction_views(list@) == contradictions(),
            x@ == a@,
            y@ == b@,
            clash_from(a@, b@, 0) == clash_from(a@, b@, k as int),
        decreases list@.len() - k,
    {
        assert(contradiction_views(list@)[k as int] == list@[k as int]@);
        assert(contradiction_views(list@).len() == list@.len());
        let pattern = &list[k];
        if (has(x, pattern.one) && has(y, pattern.other)) || (has(x, pattern.other) && has(
            y,
            pattern.one,
        )) {
            return Some(k);
        }
        k += 1;
    }
    assert(contradiction_views(list@).len() == list@.len());
    None
}

/// `warning` on two ids.
fn write_warning(a: i64, b: i64, pattern: &Contradiction) -> (text: String)
    ensures
        text@ == warning(a, b, pattern@),
{
    let mut text = "Constraint #".to_owned();
    push_decimal(&mut text, a);
    text.append(" vs #");
    push_decimal(&mut text, b);
    text.append(": ");
    text.append(pattern.description);
    text.append(" (\"");
    text.append(pattern.one);
    text.append("\" ↔ \"");
    text.append(pattern.other);
    text.append("\")");
    text
}

/// Finds the contradictions among constraints with the given ids and lessons in lower case.
pub fn find_conflicts(ids: &Vec<i64>, lessons: &Vec<String>) -> (found: Vec<String>)
    requires
        ids@.len() == lessons@.len(),
    ensures
        strings(found@) == warnings(ids@, strings(lessons@), lessons@.len() as int),
{
    let ghost all = strings(lessons@);
    let list = contradiction_list();
    let mut found: Vec<String> = Vec::new();
    let mut i: usize = 0;
    assert(strings(found@) =~= seq![]);
    while i < lessons.len()
        invariant
            i <= lessons@.len(),
            ids@.len() == lessons@.len(),
            all == strings(lessons@),
            contradiction_views(list@) == contradictions(),
            strings(found@) == warnings(ids@, all, i as int),
        decreases lessons@.len() - i,
    {
        let ghost before = strings(found@);
        let mut j: usize = i + 1;
        assert(before + seq![] =~= before);
        while j < lessons.len()
            invariant
                i < j <= lessons@.len(),
                ids@.len() == lessons@.len(),
                all == strings(lessons@),
                contradiction_views(list@) == contradictions(),
                strings(found@) == before + warnings_about(ids@, all, i as int, j as int),
            decreases lessons@.len() - j,
        {
            let ghost row = warnings_about(ids@, all, i as int, j as int);
            assert(all[i as int] == lessons@[i as int]@);
            assert(all[j as int] == lessons@[j as int]@);
            if let Some(k) = find_clash(&list, &lessons[i], &lessons[j]) {
                let ghost done = strings(found@);
                let text = write_warning(ids[i], ids[j], &list[k]);
                found.push(text);
                assert(strings(found@) =~= done.push(text@));
                assert(before + row.push(text@) =~= done.push(text@));
            }
            j += 1;
        }
        i += 1;
    }
    found
}

/// Detects the contradictory pairs among a session's constraints.
pub fn detect_future_conflicts(memory: &Memory, session_id: &str) -> (found: Vec<String>)
    ensures
        strings(found@) == conflicts(memory@, session_id@),
{
    let selection = Selection { session: session_id, state: Some(FUTURE), ids: None, logged: false };
    let at = memory.find(&selection);
    let ghost picked = at_places(memory@.slots, at@);
    assert(picked == constraints(memory@, session_id@));
    let slots = memory.slots();
    let mut lessons: Vec<String> = Vec::new();
    let mut k: usize = 0;
    while k < at.len()
        invariant
            k <= at@.len(),
            views(slots@) == memory@.slots,
            picked == at_places(memory@.slots, at@),
            forall|j: int| 0 <= j < at@.len() ==> #[trigger] at@[j] < memory@.slots.len(),
            lessons@.len() == k,
            forall|j: int|
                0 <= j < k ==> (#[trigger] lessons@[j])@ == lower_lessons(picked)[j],
        decreases at@.len() - k,
    {
        assert(at@[k as int] < memory@.slots.len());
        let slot = &slots[at[k]];
        assert(picked[k as int] == slot@);
        let lower = match &slot.learning_summary {
            Some(lesson) => lesson.as_str().to_lowercase(),
            None => "".to_lowercase(),
        };
        lessons.push(lower);
        k += 1;
    }
    assert(strings(lessons@) =~= lower_lessons(picked));
    let ids = memory.ids_at(&at);
    find_conflicts(&ids, &lessons)
}

} // verus!

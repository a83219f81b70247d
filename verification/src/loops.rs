//! Loops: the same error coming back again and again.
use vstd::prelude::*;
use crate::fingerprint::{fingerprint, fingerprint_log};
use crate::memory::{lemma_selected_archived, ChangeView, Memory, State};
use crate::repetition::{archives_a_loop, lemma_loop_is_archived};
use crate::slot::{
    at_places, ids_of, lemma_selected_picks, lemma_selected_push, lemma_states_differ, lemma_without,
    selected, views, without, Query, Selection, SlotView, DERIVED, PRESENT,
};
use crate::text::{
    chars_of, decimal, head, prefix, push_count, strings, text_of, trim, trimmed_text,
};

verus! {

/// How often the same error may be present before it counts as a loop.
pub const LOOP_THRESHOLD_DEFAULT: usize = 3;

/// How often `key` occurs among `keys`.
pub open spec fn occurrences(keys: Seq<Seq<char>>, key: Seq<char>) -> nat
    decreases keys.len(),
{
    if keys.len() == 0 {
        0
    } else {
        occurrences(keys.drop_last(), key) + if keys.last() == key {
            1nat
        } else {
            0nat
        }
    }
}

/// The ids whose key is `key`.
pub open spec fn ids_with(ids: Seq<i64>, keys: Seq<Seq<char>>, key: Seq<char>) -> Seq<i64>
    decreases keys.len(),
{
    if keys.len() == 0 || ids.len() != keys.len() {
        seq![]
    } else {
        let before = ids_with(ids.drop_last(), keys.drop_last(), key);
        if keys.last() == key {
            before.push(ids.last())
        } else {
            before
        }
    }
}

/// Of the first `n` keys, the place of the one that occurs most often among all, the first of them
/// where several do.
pub open spec fn commonest_of(keys: Seq<Seq<char>>, n: int) -> int
    decreases n,
{
    if n <= 1 {
        0
    } else {
        let before = commonest_of(keys, n - 1);
        if occurrences(keys, keys[n - 1]) > occurrences(keys, keys[before]) {
            n - 1
        } else {
            before
        }
    }
}

/// The key that occurs most often, where it does so `threshold` times or more.
pub open spec fn repeated_key(keys: Seq<Seq<char>>, threshold: int) -> Option<Seq<char>> {
    let key = keys[commonest_of(keys, keys.len() as int)];
    if keys.len() > 0 && occurrences(keys, key) >= threshold {
        Some(key)
    } else {
        None
    }
}

/// A loop as a value of the specification.
#[verifier::ext_equal]
pub struct LoopView {
    /// The slots that repeat the error.
    pub ids: Seq<i64>,
    /// The start of what they have in common.
    pub signature: Seq<char>,
    /// Whether they have the whole log in common, and not just its fingerprint.
    pub exact: bool,
}

/// The loop among slots with the given ids, trimmed logs and fingerprints. The same log is a stronger
/// sign than the same fingerprint, and goes first.
pub open spec fn loop_among(
    ids: Seq<i64>,
    logs: Seq<Seq<char>>,
    prints: Seq<Seq<char>>,
    threshold: int,
) -> Option<LoopView> {
    match repeated_key(logs, threshold) {
        Some(key) => Some(
            LoopView { ids: ids_with(ids, logs, key), signature: prefix(key, 80), exact: true },
        ),
        None => match repeated_key(prints, threshold) {
            Some(key) => Some(
                LoopView { ids: ids_with(ids, prints, key), signature: prefix(key, 80), exact: false },
            ),
            None => if threshold == 0 {
                Some(LoopView { ids: seq![], signature: seq![], exact: true })
            } else {
                None
            },
        },
    }
}

/// A loop.
pub struct Loop {
    /// The slots that repeat the error.
    pub ids: Vec<i64>,
    /// The start of what they have in common.
    pub signature: String,
    /// Whether they have the whole log in common, and not just its fingerprint.
    pub exact: bool,
}

impl View for Loop {
    type V = LoopView;

    open spec fn view(&self) -> LoopView {
        LoopView { ids: self.ids@, signature: self.signature@, exact: self.exact }
    }
}

/// As many ids have a key as the key has occurrences.
pub proof fn lemma_ids_with(ids: Seq<i64>, keys: Seq<Seq<char>>, key: Seq<char>)
    requires
        ids.len() == keys.len(),
    ensures
        ids_with(ids, keys, key).len() == occurrences(keys, key),
        forall|i: int|
            0 <= i < keys.len() && keys[i] == key ==> ids_with(ids, keys, key).contains(
                #[trigger] ids[i],
            ),
        forall|id: i64| #[trigger]
            ids_with(ids, keys, key).contains(id) ==> exists|i: int|
                0 <= i < keys.len() && #[trigger] keys[i] == key && ids[i] == id,
    decreases keys.len(),
{
    if keys.len() > 0 {
        let before = ids_with(ids.drop_last(), keys.drop_last(), key);
        let all = ids_with(ids, keys, key);
        lemma_ids_with(ids.drop_last(), keys.drop_last(), key);
        let n = keys.len() - 1;
        assert forall|i: int| 0 <= i < keys.len() && keys[i] == key implies all.contains(
            #[trigger] ids[i],
        ) by {
            if i < n {
                assert(keys.drop_last()[i] == key);
                assert(before.contains(ids.drop_last()[i]));
                let k = choose|k: int| 0 <= k < before.len() && before[k] == ids[i];
                assert(all[k] == ids[i]);
            } else {
                assert(all[all.len() - 1] == ids[i]);
            }
        }
        assert forall|id: i64| #[trigger] all.contains(id) implies exists|i: int|
            0 <= i < keys.len() && #[trigger] keys[i] == key && ids[i] == id by {
            let k = choose|k: int| 0 <= k < all.len() && all[k] == id;
            if k < before.len() {
                assert(before[k] == id);
                assert(before.contains(id));
                let i = choose|i: int|
                    0 <= i < n && #[trigger] keys.drop_last()[i] == key && ids.drop_last()[i] == id;
                assert(keys[i] == key && ids[i] == id);
            } else {
                assert(keys[n] == key && ids[n] == id);
            }
        }
    }
}

/// No key occurs more often than the one at the place of the commonest, and each before it occurs
/// less often.
pub proof fn lemma_commonest(keys: Seq<Seq<char>>, n: int)
    requires
        1 <= n <= keys.len(),
    ensures
        0 <= commonest_of(keys, n) < n,
        forall|i: int|
            0 <= i < n ==> occurrences(keys, #[trigger] keys[i]) <= occurrences(
                keys,
                keys[commonest_of(keys, n)],
            ),
        forall|i: int|
            0 <= i < commonest_of(keys, n) ==> occurrences(keys, #[trigger] keys[i]) < occurrences(
                keys,
                keys[commonest_of(keys, n)],
            ),
    decreases n,
{
    if n > 1 {
        lemma_commonest(keys, n - 1);
    }
}

/// A key that occurs is one of the keys.
proof fn lemma_occurs(keys: Seq<Seq<char>>, key: Seq<char>)
    requires
        occurrences(keys, key) > 0,
    ensures
        exists|i: int| 0 <= i < keys.len() && keys[i] == key,
    decreases keys.len(),
{
    if keys.last() == key {
        assert(keys[keys.len() - 1] == key);
    } else {
        lemma_occurs(keys.drop_last(), key);
        let i = choose|i: int| 0 <= i < keys.len() - 1 && keys.drop_last()[i] == key;
        assert(keys[i] == key);
    }
}

/// There is a repeated key exactly where some key occurs as often as the threshold says, and it then
/// occurs as often as any.
pub proof fn lemma_repeated_key(keys: Seq<Seq<char>>, threshold: int)
    requires
        threshold >= 1,
    ensures
        match repeated_key(keys, threshold) {
            Some(key) => {
                &&& occurrences(keys, key) >= threshold
                &&& keys.contains(key)
                &&& forall|other: Seq<char>|
                    #![trigger occurrences(keys, other)]
                    occurrences(keys, other) <= occurrences(keys, key)
            },
            None => forall|other: Seq<char>|
                #![trigger occurrences(keys, other)]
                occurrences(keys, other) < threshold,
        },
{
    if keys.len() > 0 {
        lemma_commonest(keys, keys.len() as int);
    }
    assert forall|other: Seq<char>|
        #![trigger occurrences(keys, other)]
        occurrences(keys, other) > 0 implies keys.len() > 0 && occurrences(keys, other)
        <= occurrences(keys, keys[commonest_of(keys, keys.len() as int)]) by {
        lemma_occurs(keys, other);
    }
}

/// `occurrences` on a list.
fn count(keys: &Vec<String>, key: &String) -> (n: usize)
    ensures
        n == occurrences(strings(keys@), key@),
{
    let ghost all = strings(keys@);
    let mut n: usize = 0;
    let mut i: usize = 0;
    while i < keys.len()
        invariant
            i <= keys@.len(),
            n <= i,
            all == strings(keys@),
            n == occurrences(all.take(i as int), key@),
        decreases keys@.len() - i,
    {
        assert(all.take(i + 1).drop_last() =~= all.take(i as int));
        assert(all.take(i + 1).last() == keys@[i as int]@);
        if keys[i] == *key {
            n += 1;
        }
        i += 1;
    }
    assert(all.take(i as int) =~= all);
    n
}

/// `repeated_key` on a list: the place of the key.
fn find_repeated(keys: &Vec<String>, threshold: usize) -> (at: Option<usize>)
    ensures
        match at {
            Some(i) => i < keys@.len() && repeated_key(strings(keys@), threshold as int) == Some(
                keys@[i as int]@,
            ),
            None => repeated_key(strings(keys@), threshold as int) is None,
        },
{
    if keys.len() == 0 {
        return None;
    }
    let ghost all = strings(keys@);
    let mut best: usize = 0;
    let mut most: usize = count(keys, &keys[0]);
    let mut i: usize = 1;
    while i < keys.len()
        invariant
            1 <= i <= keys@.len(),
            best < i,
            all == strings(keys@),
            best == commonest_of(all, i as int),
            most == occurrences(all, all[best as int]),
        decreases keys@.len() - i,
    {
        let n: usize = count(keys, &keys[i]);
        if n > most {
            best = i;
            most = n;
        }
        i += 1;
    }
    if most >= threshold {
        Some(best)
    } else {
        None
    }
}

/// `ids_with` on lists.
fn collect_ids(ids: &Vec<i64>, keys: &Vec<String>, key: &String) -> (found: Vec<i64>)
    requires
        ids@.len() == keys@.len(),
    ensures
        found@ == ids_with(ids@, strings(keys@), key@),
{
    let ghost all = strings(keys@);
    let mut found: Vec<i64> = Vec::new();
    let mut i: usize = 0;
    while i < keys.len()
        invariant
            i <= keys@.len(),
            ids@.len() == keys@.len(),
            all == strings(keys@),
            found@ == ids_with(ids@.take(i as int), all.take(i as int), key@),
        decreases keys@.len() - i,
    {
        assert(all.take(i + 1).drop_last() =~= all.take(i as int));
        assert(all.take(i + 1).last() == keys@[i as int]@);
        assert(ids@.take(i + 1).drop_last() =~= ids@.take(i as int));
        if keys[i] == *key {
            found.push(ids[i]);
        }
        i += 1;
    }
    assert(all.take(i as int) =~= all);
    assert(ids@.take(i as int) =~= ids@);
    found
}

/// The first 80 characters of a key.
fn signature_of(key: &String) -> (text: String)
    ensures
        text@ == prefix(key@, 80),
{
    let chars = chars_of(key.as_str());
    text_of(head(chars.as_slice(), 80))
}

/// Finds the loop among slots with the given ids, trimmed logs and fingerprints.
pub fn find_loop(ids: &Vec<i64>, logs: &Vec<String>, prints: &Vec<String>, threshold: usize) -> (found:
    Option<Loop>)
    requires
        ids@.len() == logs@.len(),
        ids@.len() == prints@.len(),
    ensures
        match found {
            Some(l) => loop_among(ids@, strings(logs@), strings(prints@), threshold as int) == Some(
                l@,
            ),
            None => loop_among(ids@, strings(logs@), strings(prints@), threshold as int) is None,
        },
{
    if let Some(i) = find_repeated(logs, threshold) {
        return Some(
            Loop {
                ids: collect_ids(ids, logs, &logs[i]),
                signature: signature_of(&logs[i]),
                exact: true,
            },
        );
    }
    if let Some(i) = find_repeated(prints, threshold) {
        return Some(
            Loop {
                ids: collect_ids(ids, prints, &prints[i]),
                signature: signature_of(&prints[i]),
                exact: false,
            },
        );
    }
    if threshold == 0 {
        Some(Loop { ids: Vec::new(), signature: String::new(), exact: true })
    } else {
        None
    }
}

/// The slots of a session's present that have a log, newest first.
pub open spec fn present_logs(state: State, session: Seq<char>) -> Seq<SlotView> {
    selected(state.slots, Query::in_state(session, PRESENT@).with_log()).reverse()
}

/// The trimmed logs of slots that have one.
pub open spec fn trimmed_logs(slots: Seq<SlotView>) -> Seq<Seq<char>> {
    Seq::new(slots.len(), |i: int| trim(slots[i].raw_log->0))
}

/// The fingerprints of slots that have a log.
pub open spec fn fingerprints(slots: Seq<SlotView>) -> Seq<Seq<char>> {
    Seq::new(slots.len(), |i: int| fingerprint(slots[i].raw_log->0))
}

/// The loop in a session's present.
pub open spec fn loop_in(state: State, session: Seq<char>, threshold: int) -> Option<LoopView> {
    let slots = present_logs(state, session);
    if slots.len() < threshold {
        None
    } else {
        loop_among(ids_of(slots), trimmed_logs(slots), fingerprints(slots), threshold)
    }
}

/// The constraint that a loop is answered with.
pub open spec fn anchor(found: LoopView) -> Seq<char> {
    "[SYSTEM ANCHOR] Loop detected ("@ + (if found.exact {
        "exact"@
    } else {
        "fingerprint"@
    }) + "): the same error pattern appeared "@ + decimal(found.ids.len() as int)
        + " times. Last signature: \""@ + found.signature
        + "...\". CURRENT STRATEGY EXHAUSTED. Mandatory: completely change approach. Do not repeat the same action. Try another tool, another file, or consult the user."@
}

/// The memory after a loop has been dealt with: its slots are past, and the session has the anchor as
/// a new constraint.
pub open spec fn mitigated(state: State, session: Seq<char>, found: LoopView) -> State {
    let moved = state.step(ChangeView::ArchiveSlots(found.ids));
    moved.step(ChangeView::InsertSlot(moved.future_slot(session, anchor(found), DERIVED@)))
}

/// `anchor` on a loop.
fn write_anchor(found: &Loop) -> (text: String)
    ensures
        text@ == anchor(found@),
{
    let mut text = "[SYSTEM ANCHOR] Loop detected (".to_owned();
    if found.exact {
        text.append("exact");
    } else {
        text.append("fingerprint");
    }
    text.append("): the same error pattern appeared ");
    push_count(&mut text, found.ids.len());
    text.append(" times. Last signature: \"");
    text.append(found.signature.as_str());
    text.append(
        "...\". CURRENT STRATEGY EXHAUSTED. Mandatory: completely change approach. Do not repeat the same action. Try another tool, another file, or consult the user.",
    );
    text
}

/// The ids, trimmed logs and fingerprints of the slots at the given places, last place first.
fn gather(memory: &Memory, at: &Vec<usize>) -> (all: (Vec<i64>, Vec<String>, Vec<String>))
    requires
        forall|k: int| 0 <= k < at@.len() ==> #[trigger] at@[k] < memory@.slots.len(),
        forall|k: int|
            0 <= k < at@.len() ==> (#[trigger] at_places(memory@.slots, at@)[k]).raw_log is Some,
    ensures
        all.0@ == ids_of(at_places(memory@.slots, at@).reverse()),
        strings(all.1@) == trimmed_logs(at_places(memory@.slots, at@).reverse()),
        strings(all.2@) == fingerprints(at_places(memory@.slots, at@).reverse()),
{
    let ghost picked = at_places(memory@.slots, at@);
    let ghost newest = picked.reverse();
    let slots = memory.slots();
    let mut ids: Vec<i64> = Vec::new();
    let mut logs: Vec<String> = Vec::new();
    let mut prints: Vec<String> = Vec::new();
    let mut k: usize = at.len();
    while k > 0
        invariant
            k <= at@.len(),
            views(slots@) == memory@.slots,
            picked == at_places(memory@.slots, at@),
            newest == picked.reverse(),
            forall|j: int| 0 <= j < at@.len() ==> #[trigger] at@[j] < memory@.slots.len(),
            forall|j: int| 0 <= j < at@.len() ==> (#[trigger] picked[j]).raw_log is Some,
            ids@.len() == at@.len() - k,
            logs@.len() == at@.len() - k,
            prints@.len() == at@.len() - k,
            forall|j: int|
                0 <= j < at@.len() - k ==> {
                    &&& #[trigger] ids@[j] == newest[j].id
                    &&& logs@[j]@ == trim(newest[j].raw_log->0)
                    &&& prints@[j]@ == fingerprint(newest[j].raw_log->0)
                },
        decreases k,
    {
        k -= 1;
        assert(at@[k as int] < memory@.slots.len());
        let slot = &slots[at[k]];
        assert(picked[k as int] == slot@);
        assert(newest[at@.len() - 1 - k] == slot@);
        if let Some(log) = &slot.raw_log {
            ids.push(slot.id);
            logs.push(trimmed_text(log.as_str()));
            prints.push(fingerprint_log(log.as_str()));
        }
    }
    assert(ids@ =~= ids_of(newest)) by {
        assert forall|j: int| 0 <= j < ids@.len() implies ids@[j] == newest[j].id by {}
    }
    assert(strings(logs@) =~= trimmed_logs(newest)) by {
        assert forall|j: int| 0 <= j < logs@.len() implies logs@[j]@ == trim(
            newest[j].raw_log->0,
        ) by {
            assert(ids@[j] == newest[j].id);
        }
    }
    assert(strings(prints@) =~= fingerprints(newest)) by {
        assert forall|j: int| 0 <= j < prints@.len() implies prints@[j]@ == fingerprint(
            newest[j].raw_log->0,
        ) by {
            assert(ids@[j] == newest[j].id);
        }
    }
    (ids, logs, prints)
}

/// Looks for a loop in a session's present: `threshold` slots or more with the same log or, where there
/// are none, with the same fingerprint. Moves its slots to the past and injects a constraint. Returns
/// whether there was a loop.
pub fn auto_detect_and_mitigate_loops(memory: &mut Memory, session_id: &str, threshold: usize) -> (done:
    bool)
    requires
        old(memory)@.valid(),
        loop_in(old(memory)@, session_id@, threshold as int) is Some ==> old(memory)@.room(1),
    ensures
        final(memory)@.valid(),
        match loop_in(old(memory)@, session_id@, threshold as int) {
            Some(found) => {
                &&& done
                &&& final(memory)@ == mitigated(old(memory)@, session_id@, found)
                &&& forall|n: int| #[trigger]
                    old(memory)@.room(n) && n >= 1 ==> final(memory)@.room(n - 1)
            },
            None => !done && final(memory)@ == old(memory)@,
        },
        done && threshold >= 1 ==> archives_a_loop(
            old(memory)@,
            final(memory)@,
            session_id@,
            threshold as int,
        ),
{
    proof {
        if threshold >= 1 && loop_in(memory@, session_id@, threshold as int) is Some {
            lemma_loop_is_archived(memory@, session_id@, threshold as int);
        }
    }
    let selection = Selection {
        session: session_id,
        state: Some(PRESENT),
        ids: None,
        logged: true,
    };
    let at = memory.find(&selection);
    let ghost picked = at_places(memory@.slots, at@);
    assert(picked.reverse() == present_logs(memory@, session_id@));
    if at.len() < threshold {
        return false;
    }
    proof {
        lemma_selected_picks(memory@.slots, selection@);
    }
    let (ids, logs, prints) = gather(memory, &at);
    assert(strings(logs@).len() == logs@.len());
    assert(strings(prints@).len() == prints@.len());
    match find_loop(&ids, &logs, &prints, threshold) {
        None => false,
        Some(found) => {
            let text = write_anchor(&found);
            memory.archive(found.ids);
            memory.insert_future(session_id, text.as_str(), DERIVED);
            true
        },
    }
}

/// The memory after every loop in a session's present has been dealt with, one after the other.
pub open spec fn settled(state: State, session: Seq<char>) -> State
    decreases present_logs(state, session).len(),
{
    match loop_in(state, session, LOOP_THRESHOLD_DEFAULT as int) {
        None => state,
        Some(found) => {
            let next = mitigated(state, session, found);
            if present_logs(next, session).len() < present_logs(state, session).len() {
                settled(next, session)
            } else {
                state
            }
        },
    }
}

/// Dealing with a loop takes the slots that repeat the error out of the session's present, and
/// nothing else.
pub proof fn lemma_mitigated_present(state: State, session: Seq<char>, found: LoopView)
    ensures
        selected(
            mitigated(state, session, found).slots,
            Query::in_state(session, PRESENT@).with_log(),
        ) == without(
            selected(state.slots, Query::in_state(session, PRESENT@).with_log()),
            found.ids,
        ),
{
    let query = Query::in_state(session, PRESENT@).with_log();
    let moved = state.step(ChangeView::ArchiveSlots(found.ids));
    let slot = moved.future_slot(session, anchor(found), DERIVED@);
    lemma_states_differ();
    lemma_selected_archived(state.slots, found.ids, query);
    lemma_selected_push(moved.slots, slot, query);
}

/// A loop's slots are in the session's present, so that dealing with it leaves fewer there.
pub proof fn lemma_mitigation_shrinks(state: State, session: Seq<char>, threshold: int)
    requires
        threshold >= 1,
        loop_in(state, session, threshold) is Some,
    ensures
        ({
            let found = loop_in(state, session, threshold)->0;
            let next = mitigated(state, session, found);
            &&& found.ids.len() >= threshold
            &&& present_logs(next, session).len() < present_logs(state, session).len()
        }),
{
    let query = Query::in_state(session, PRESENT@).with_log();
    let slots = present_logs(state, session);
    let ids = ids_of(slots);
    let found = loop_in(state, session, threshold)->0;
    let keys = if repeated_key(trimmed_logs(slots), threshold) is Some {
        trimmed_logs(slots)
    } else {
        fingerprints(slots)
    };
    let key = repeated_key(keys, threshold)->0;
    lemma_repeated_key(trimmed_logs(slots), threshold);
    lemma_repeated_key(fingerprints(slots), threshold);
    lemma_ids_with(ids, keys, key);
    assert(found.ids == ids_with(ids, keys, key));
    lemma_mitigated_present(state, session, found);
    let before = selected(state.slots, query);
    lemma_without(before, found.ids);
    let id = found.ids[0];
    assert(found.ids.contains(id));
    let i = choose|i: int| 0 <= i < keys.len() && #[trigger] keys[i] == key && ids[i] == id;
    assert(before[before.len() - 1 - i].id == id);
}

/// A memory whose loops have been dealt with has no loop: fewer slots of the session's present than
/// the threshold share a log, and fewer share a fingerprint.
pub proof fn lemma_settled_has_no_loop(state: State, session: Seq<char>)
    ensures
        loop_in(settled(state, session), session, LOOP_THRESHOLD_DEFAULT as int) is None,
        forall|key: Seq<char>|
            #![trigger occurrences(trimmed_logs(present_logs(settled(state, session), session)), key)]
            occurrences(trimmed_logs(present_logs(settled(state, session), session)), key)
                < LOOP_THRESHOLD_DEFAULT,
        forall|key: Seq<char>|
            #![trigger occurrences(fingerprints(present_logs(settled(state, session), session)), key)]
            occurrences(fingerprints(present_logs(settled(state, session), session)), key)
                < LOOP_THRESHOLD_DEFAULT,
    decreases present_logs(state, session).len(),
{
    match loop_in(state, session, LOOP_THRESHOLD_DEFAULT as int) {
        None => {
            let slots = present_logs(state, session);
            lemma_repeated_key(trimmed_logs(slots), LOOP_THRESHOLD_DEFAULT as int);
            lemma_repeated_key(fingerprints(slots), LOOP_THRESHOLD_DEFAULT as int);
            if slots.len() < LOOP_THRESHOLD_DEFAULT {
                assert forall|keys: Seq<Seq<char>>, key: Seq<char>|
                    keys.len() < LOOP_THRESHOLD_DEFAULT implies #[trigger] occurrences(keys, key)
                    < LOOP_THRESHOLD_DEFAULT by {
                    lemma_occurrences_bound(keys, key);
                }
            }
        },
        Some(found) => {
            lemma_mitigation_shrinks(state, session, LOOP_THRESHOLD_DEFAULT as int);
            lemma_settled_has_no_loop(mitigated(state, session, found), session);
        },
    }
}

/// A key occurs no more often than there are keys.
proof fn lemma_occurrences_bound(keys: Seq<Seq<char>>, key: Seq<char>)
    ensures
        occurrences(keys, key) <= keys.len(),
    decreases keys.len(),
{
    if keys.len() > 0 {
        lemma_occurrences_bound(keys.drop_last(), key);
    }
}

/// There is a loop exactly where as many slots of the session's present as the threshold says share a log
/// or a fingerprint. It is as large as any group of slots that share a log, where one of these is large
/// enough, and otherwise as any group that share a fingerprint.
pub proof fn lemma_loop_is_repetition(state: State, session: Seq<char>, threshold: int)
    requires
        threshold >= 1,
    ensures
        ({
            let slots = present_logs(state, session);
            let logs = trimmed_logs(slots);
            let prints = fingerprints(slots);
            match loop_in(state, session, threshold) {
                Some(found) => {
                    &&& found.ids.len() >= threshold
                    &&& found.exact ==> forall|key: Seq<char>| #[trigger]
                        occurrences(logs, key) <= found.ids.len()
                    &&& !found.exact ==> forall|key: Seq<char>|
                        #![trigger occurrences(logs, key)]
                        #![trigger occurrences(prints, key)]
                        occurrences(logs, key) < threshold && occurrences(prints, key)
                            <= found.ids.len()
                },
                None => forall|key: Seq<char>|
                    #![trigger occurrences(logs, key)]
                    #![trigger occurrences(prints, key)]
                    occurrences(logs, key) < threshold && occurrences(prints, key) < threshold,
            }
        }),
{
    let slots = present_logs(state, session);
    let ids = ids_of(slots);
    let logs = trimmed_logs(slots);
    let prints = fingerprints(slots);
    assert forall|key: Seq<char>|
        #![trigger occurrences(logs, key)]
        #![trigger occurrences(prints, key)]
        occurrences(logs, key) <= slots.len() && occurrences(prints, key) <= slots.len() by {
        lemma_occurrences_bound(logs, key);
        lemma_occurrences_bound(prints, key);
    }
    lemma_repeated_key(logs, threshold);
    lemma_repeated_key(prints, threshold);
    if let Some(key) = repeated_key(logs, threshold) {
        lemma_ids_with(ids, logs, key);
    }
    if let Some(key) = repeated_key(prints, threshold) {
        lemma_ids_with(ids, prints, key);
    }
}

/// Deals with every loop in a session's present.
pub fn settle_loops(memory: &mut Memory, session_id: &str)
    requires
        old(memory)@.valid(),
        old(memory)@.room(present_logs(old(memory)@, session_id@).len() as int + 1),
    ensures
        final(memory)@.valid(),
        final(memory)@.room(1),
        final(memory)@ == settled(old(memory)@, session_id@),
{
    let ghost mut n: int = present_logs(memory@, session_id@).len() as int + 1;
    loop
        invariant_except_break
            n > present_logs(memory@, session_id@).len(),
        invariant
            memory@.valid(),
            memory@.room(n),
            n >= 1,
            settled(memory@, session_id@) == settled(old(memory)@, session_id@),
        ensures
            loop_in(memory@, session_id@, LOOP_THRESHOLD_DEFAULT as int) is None,
        decreases present_logs(memory@, session_id@).len(),
    {
        let ghost state = memory@;
        let done = auto_detect_and_mitigate_loops(memory, session_id, LOOP_THRESHOLD_DEFAULT);
        if !done {
            break;
        }
        proof {
            lemma_mitigation_shrinks(state, session_id@, LOOP_THRESHOLD_DEFAULT as int);
            assert(state.room(n));
            n = n - 1;
        }
    }
}

} // verus!

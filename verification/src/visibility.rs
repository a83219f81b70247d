//! What a context shows of each slot and of each warning.
use vstd::prelude::*;
use crate::conflicts::conflicts;
use crate::context::{
    active_context, annotated_context, entries, entry, heading, warning_lines, warning_section,
};
use crate::memory::{session_slots, State};
use crate::slot::{
    lemma_picked_is_selected, lemma_selected_push, lemma_states_differ, selected, Query, SlotView,
};
use crate::text_laws::{is_part, lemma_part_of_part};

verus! {

/// What the context says of a slot stands in what it says of all.
proof fn lemma_entry_is_part(slots: Seq<SlotView>, k: int)
    requires
        0 <= k < slots.len(),
    ensures
        is_part(entry(slots[k]), entries(slots)),
    decreases slots.len(),
{
    let front = slots.drop_last();
    let nothing = Seq::<char>::empty();
    if k == slots.len() - 1 {
        assert(entries(slots) =~= entries(front) + entry(slots[k]) + nothing);
    } else {
        lemma_entry_is_part(front, k);
        lemma_part_of_part(nothing, entries(front), entry(slots.last()), entry(slots[k]));
        assert(entries(slots) =~= nothing + entries(front) + entry(slots.last()));
    }
}

/// What the context says of a slot stands in the context of its session, with warnings or without.
proof fn lemma_slot_is_shown(state: State, session: Seq<char>, i: int, piece: Seq<char>)
    requires
        0 <= i < state.slots.len(),
        state.slots[i].session_id == session,
        is_part(piece, entry(state.slots[i])),
    ensures
        is_part(piece, active_context(state, session)),
        is_part(piece, annotated_context(state, session)),
{
    let slots = session_slots(state, session);
    let nothing = Seq::<char>::empty();
    let context = active_context(state, session);
    let warnings = warning_section(conflicts(state, session));
    lemma_picked_is_selected(state.slots, Query::all(session), i);
    let k = choose|k: int| 0 <= k < slots.len() && slots[k] == state.slots[i];
    lemma_entry_is_part(slots, k);
    let (a, b) = choose|a: Seq<char>, b: Seq<char>| entries(slots) == #[trigger] (a + entry(slots[k]) + b);
    lemma_part_of_part(a, entry(slots[k]), b, piece);
    lemma_part_of_part(heading(), entries(slots), nothing, piece);
    assert(context =~= heading() + entries(slots) + nothing);
    lemma_part_of_part(nothing, context, warnings, piece);
    assert(annotated_context(state, session) =~= nothing + context + warnings);
}

/// The context of a session shows the log of each slot in its present, whole and in one piece, behind the
/// name of the file that it is about.
pub proof fn lemma_present_log_is_shown(state: State, session: Seq<char>, i: int)
    requires
        0 <= i < state.slots.len(),
        state.slots[i].session_id == session,
        state.slots[i].temporal_state == "PRESENT"@,
        state.slots[i].raw_log is Some,
    ensures
        ({
            let log = state.slots[i].raw_log->0;
            let line = match state.slots[i].file_context {
                Some(file) => "[ACTIVE PRESENT STATE] "@ + "File: "@ + file + " | Log: "@ + log + "\n"@,
                None => "[ACTIVE PRESENT STATE] "@ + " | Log: "@ + log + "\n"@,
            };
            &&& is_part(log, line)
            &&& is_part(log, active_context(state, session))
            &&& is_part(log, annotated_context(state, session))
            &&& is_part(line, active_context(state, session))
            &&& is_part(line, annotated_context(state, session))
        }),
{
    lemma_states_differ();
    reveal_strlit("");
    let slot = state.slots[i];
    let log = slot.raw_log->0;
    let nothing = Seq::<char>::empty();
    let start = match slot.file_context {
        Some(file) => "[ACTIVE PRESENT STATE] "@ + "File: "@ + file + " | Log: "@,
        None => "[ACTIVE PRESENT STATE] "@ + " | Log: "@,
    };
    let line = start + log + "\n"@;
    assert(entry(slot) =~= line);
    assert(entry(slot) =~= nothing + line + nothing);
    assert(is_part(log, start + log + "\n"@));
    lemma_slot_is_shown(state, session, i, log);
    lemma_slot_is_shown(state, session, i, line);
}

/// The context of a session shows the lesson of each of its constraints, whole and in one piece, behind
/// a label that tells where it comes from.
pub proof fn lemma_constraint_is_shown(state: State, session: Seq<char>, i: int)
    requires
        0 <= i < state.slots.len(),
        state.slots[i].session_id == session,
        state.slots[i].temporal_state == "FUTURE"@,
        state.slots[i].learning_summary is Some,
    ensures
        ({
            let lesson = state.slots[i].learning_summary->0;
            let line = if state.slots[i].constraint_type == Some("PROSPECTIVE"@) {
                "[PROSPECTIVE CONSTRAINT]"@ + ": "@ + lesson + "\n"@
            } else {
                "[PREVENTIVE FUTURE CONSTRAINT]"@ + ": "@ + lesson + "\n"@
            };
            &&& is_part(lesson, line)
            &&& is_part(lesson, active_context(state, session))
            &&& is_part(lesson, annotated_context(state, session))
            &&& is_part(line, active_context(state, session))
            &&& is_part(line, annotated_context(state, session))
        }),
{
    let slot = state.slots[i];
    let lesson = slot.learning_summary->0;
    let nothing = Seq::<char>::empty();
    let start = if slot.constraint_type == Some("PROSPECTIVE"@) {
        "[PROSPECTIVE CONSTRAINT]"@ + ": "@
    } else {
        "[PREVENTIVE FUTURE CONSTRAINT]"@ + ": "@
    };
    let line = start + lesson + "\n"@;
    assert(entry(slot) =~= line);
    assert(entry(slot) =~= nothing + line + nothing);
    assert(is_part(lesson, start + lesson + "\n"@));
    lemma_slot_is_shown(state, session, i, lesson);
    lemma_slot_is_shown(state, session, i, line);
}

/// Whether a context shows, whole and in one piece, the log of each slot in the session's present and the
/// lesson of each of its constraints.
pub open spec fn shows_all(text: Seq<char>, state: State, session: Seq<char>) -> bool {
    &&& forall|i: int|
        0 <= i < state.slots.len() && (#[trigger] state.slots[i]).session_id == session
            && state.slots[i].temporal_state == "PRESENT"@ && state.slots[i].raw_log is Some ==> is_part(
            state.slots[i].raw_log->0,
            text,
        )
    &&& forall|i: int|
        0 <= i < state.slots.len() && (#[trigger] state.slots[i]).session_id == session
            && state.slots[i].temporal_state == "FUTURE"@ && state.slots[i].learning_summary is Some
            ==> is_part(state.slots[i].learning_summary->0, text)
}

/// The context of a session shows all that is present or constrains it, with warnings or without.
pub proof fn lemma_all_is_shown(state: State, session: Seq<char>)
    ensures
        shows_all(active_context(state, session), state, session),
        shows_all(annotated_context(state, session), state, session),
{
    assert forall|i: int|
        0 <= i < state.slots.len() && (#[trigger] state.slots[i]).session_id == session
            && state.slots[i].temporal_state == "PRESENT"@ && state.slots[i].raw_log is Some implies is_part(
        state.slots[i].raw_log->0,
        active_context(state, session),
    ) && is_part(state.slots[i].raw_log->0, annotated_context(state, session)) by {
        lemma_present_log_is_shown(state, session, i);
    }
    assert forall|i: int|
        0 <= i < state.slots.len() && (#[trigger] state.slots[i]).session_id == session
            && state.slots[i].temporal_state == "FUTURE"@ && state.slots[i].learning_summary is Some implies is_part(
        state.slots[i].learning_summary->0,
        active_context(state, session),
    ) && is_part(state.slots[i].learning_summary->0, annotated_context(state, session)) by {
        lemma_constraint_is_shown(state, session, i);
    }
}

/// A further slot adds one line at the end of its session's context, or nothing: a past slot adds nothing,
/// and so does one of another session or one that has nothing to say. A session without slots has but the
/// heading.
pub proof fn lemma_context_grows(state: State, after: State, session: Seq<char>, slot: SlotView)
    requires
        after.slots == state.slots.push(slot),
    ensures
        state.slots.len() == 0 ==> active_context(state, session)
            == "=== VLK CHRONESTHESIA LAYER ===\n"@
            + "Active context: PRESENT (live) + FUTURE (constraints). PAST is archived.\n\n"@,
        ({
            let before = active_context(state, session);
            let now = active_context(after, session);
            &&& slot.session_id != session || slot.temporal_state == "PAST"@ ==> now == before
            &&& slot.session_id == session && slot.temporal_state == "FUTURE"@ ==> match (
                slot.learning_summary,
                slot.constraint_type,
            ) {
                (None, _) => now == before,
                (Some(lesson), None) => now == before + "[PREVENTIVE FUTURE CONSTRAINT]"@ + ": "@ + lesson
                    + "\n"@,
                (Some(lesson), Some(kind)) => {
                    &&& kind == "PROSPECTIVE"@ ==> now == before + "[PROSPECTIVE CONSTRAINT]"@ + ": "@
                        + lesson + "\n"@
                    &&& kind != "PROSPECTIVE"@ ==> now == before + "[PREVENTIVE FUTURE CONSTRAINT]"@
                        + ": "@ + lesson + "\n"@
                },
            }
            &&& slot.session_id == session && slot.temporal_state == "PRESENT"@ ==> match (
                slot.raw_log,
                slot.file_context,
                slot.learning_summary,
            ) {
                (Some(log), Some(file), _) => now == before + "[ACTIVE PRESENT STATE] "@ + "File: "@ + file
                    + " | Log: "@ + log + "\n"@,
                (Some(log), None, _) => now == before + "[ACTIVE PRESENT STATE] "@ + " | Log: "@ + log
                    + "\n"@,
                (None, _, Some(note)) => now == before + "[PRESENT NOTE]: "@ + note + "\n"@,
                (None, _, None) => now == before,
            }
        }),
{
    lemma_states_differ();
    reveal_strlit("");
    let query = Query::all(session);
    let slots = selected(state.slots, query);
    let before = active_context(state, session);
    let now = active_context(after, session);
    if state.slots.len() == 0 {
        assert(slots.len() == 0);
        assert(entries(slots) =~= Seq::<char>::empty());
        assert(before =~= heading());
    }
    lemma_selected_push(state.slots, slot, query);
    assert(slots.push(slot).drop_last() =~= slots);
    if slot.session_id == session {
        assert(now =~= before + entry(slot));
        if slot.temporal_state == "PAST"@ {
            assert(now =~= before);
        } else if slot.temporal_state == "FUTURE"@ {
            match (slot.learning_summary, slot.constraint_type) {
                (None, _) => {
                    assert(now =~= before);
                },
                (Some(lesson), Some(kind)) => {
                    if kind == "PROSPECTIVE"@ {
                        assert(now =~= before + "[PROSPECTIVE CONSTRAINT]"@ + ": "@ + lesson + "\n"@);
                    } else {
                        assert(now =~= before + "[PREVENTIVE FUTURE CONSTRAINT]"@ + ": "@ + lesson
                            + "\n"@);
                    }
                },
                (Some(lesson), None) => {
                    assert(now =~= before + "[PREVENTIVE FUTURE CONSTRAINT]"@ + ": "@ + lesson + "\n"@);
                },
            }
        } else if slot.temporal_state == "PRESENT"@ {
            match (slot.raw_log, slot.file_context, slot.learning_summary) {
                (Some(log), Some(file), _) => {
                    assert(now =~= before + "[ACTIVE PRESENT STATE] "@ + "File: "@ + file + " | Log: "@ + log
                        + "\n"@);
                },
                (Some(log), None, _) => {
                    assert(now =~= before + "[ACTIVE PRESENT STATE] "@ + " | Log: "@ + log + "\n"@);
                },
                (None, _, Some(note)) => {
                    assert(now =~= before + "[PRESENT NOTE]: "@ + note + "\n"@);
                },
                (None, _, None) => {
                    assert(now =~= before);
                },
            }
        }
    }
}

/// A further warning adds one line, and a session without warnings has none.
pub proof fn lemma_warnings_grow(warnings: Seq<Seq<char>>, warning: Seq<char>)
    ensures
        warning_lines(Seq::<Seq<char>>::empty()).len() == 0,
        warning_lines(warnings.push(warning)) == warning_lines(warnings) + "  ⚠ "@ + warning + "\n"@,
{
    assert(warnings.push(warning).drop_last() =~= warnings);
}

/// A line stands among those of all warnings.
proof fn lemma_warning_line(warnings: Seq<Seq<char>>, k: int)
    requires
        0 <= k < warnings.len(),
    ensures
        is_part("  ⚠ "@ + warnings[k] + "\n"@, warning_lines(warnings)),
    decreases warnings.len(),
{
    let front = warnings.drop_last();
    let nothing = Seq::<char>::empty();
    let line = "  ⚠ "@ + warnings[k] + "\n"@;
    if k == warnings.len() - 1 {
        assert(warning_lines(warnings) =~= warning_lines(front) + line + nothing);
    } else {
        let last = "  ⚠ "@ + warnings.last() + "\n"@;
        lemma_warning_line(front, k);
        lemma_part_of_part(nothing, warning_lines(front), last, line);
        assert(warning_lines(warnings) =~= nothing + warning_lines(front) + last);
    }
}

/// Every warning about a session's constraints shows in its context, whole and on a line of its own.
pub proof fn lemma_warning_is_shown(state: State, session: Seq<char>, k: int)
    requires
        0 <= k < conflicts(state, session).len(),
    ensures
        is_part("  ⚠ "@ + conflicts(state, session)[k] + "\n"@, annotated_context(state, session)),
{
    let warnings = conflicts(state, session);
    let nothing = Seq::<char>::empty();
    let line = "  ⚠ "@ + warnings[k] + "\n"@;
    let title = "\n─── ⚠ CONFLICTING FUTURE CONSTRAINTS DETECTED ───\n"@;
    let advice = "  → Resolve with vlk_revoke_future before proceeding.\n"@;
    lemma_warning_line(warnings, k);
    lemma_part_of_part(title, warning_lines(warnings), advice, line);
    lemma_part_of_part(active_context(state, session), warning_section(warnings), nothing, line);
    assert(annotated_context(state, session) =~= active_context(state, session) + warning_section(warnings)
        + nothing);
}

} // verus!

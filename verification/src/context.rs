//! The context that the agent gets to see.
use vstd::prelude::*;
use crate::conflicts::{conflicts, detect_future_conflicts};
use crate::consolidation::{consolidate_future_constraints, consolidated};
use crate::loops::{present_logs, settle_loops, settled};
use crate::memory::{session_slots, Memory, State};
use crate::slot::{at_places, views, Selection, SlotView, TimelineSlot, FUTURE, PAST, PRESENT, PROSPECTIVE};
use crate::text::{same_text, strings};
use crate::visibility::{lemma_all_is_shown, shows_all};

verus! {

/// The label of a constraint with the given origin.
pub open spec fn constraint_label(kind: Option<Seq<char>>) -> Seq<char> {
    match kind {
        Some(k) if k == PROSPECTIVE@ => "[PROSPECTIVE CONSTRAINT]"@,
        _ => "[PREVENTIVE FUTURE CONSTRAINT]"@,
    }
}

/// What the context says of the file that a log is about.
pub open spec fn file_note(file: Option<Seq<char>>) -> Seq<char> {
    match file {
        Some(name) => "File: "@ + name,
        None => ""@,
    }
}

/// What the context says of a slot, which is nothing where the slot is past.
pub open spec fn entry(slot: SlotView) -> Seq<char> {
    if slot.temporal_state == FUTURE@ {
        match slot.learning_summary {
            Some(lesson) => constraint_label(slot.constraint_type) + ": "@ + lesson + "\n"@,
            None => ""@,
        }
    } else if slot.temporal_state == PRESENT@ {
        match slot.raw_log {
            Some(log) => "[ACTIVE PRESENT STATE] "@ + file_note(slot.file_context) + " | Log: "@ + log
                + "\n"@,
            None => match slot.learning_summary {
                Some(note) => "[PRESENT NOTE]: "@ + note + "\n"@,
                None => ""@,
            },
        }
    } else {
        ""@
    }
}

/// What the context says of slots, one after the other.
pub open spec fn entries(slots: Seq<SlotView>) -> Seq<char>
    decreases slots.len(),
{
    if slots.len() == 0 {
        seq![]
    } else {
        entries(slots.drop_last()) + entry(slots.last())
    }
}

/// The lines that every context starts with.
pub open spec fn heading() -> Seq<char> {
    "=== VLK CHRONESTHESIA LAYER ===\n"@
        + "Active context: PRESENT (live) + FUTURE (constraints). PAST is archived.\n\n"@
}

/// The context of a session: the heading, then what is present and what constrains the future, oldest
/// first.
pub open spec fn active_context(state: State, session: Seq<char>) -> Seq<char> {
    heading() + entries(session_slots(state, session))
}

/// One line for each warning.
pub open spec fn warning_lines(warnings: Seq<Seq<char>>) -> Seq<char>
    decreases warnings.len(),
{
    if warnings.len() == 0 {
        seq![]
    } else {
        warning_lines(warnings.drop_last()) + "  ⚠ "@ + warnings.last() + "\n"@
    }
}

/// What the context says of contradictory constraints, which is nothing where there are none.
pub open spec fn warning_section(warnings: Seq<Seq<char>>) -> Seq<char> {
    if warnings.len() == 0 {
        ""@
    } else {
        "\n─── ⚠ CONFLICTING FUTURE CONSTRAINTS DETECTED ───\n"@ + warning_lines(warnings)
            + "  → Resolve with vlk_revoke_future before proceeding.\n"@
    }
}

/// The context of a session with warnings about its constraints.
pub open spec fn annotated_context(state: State, session: Seq<char>) -> Seq<char> {
    active_context(state, session) + warning_section(conflicts(state, session))
}

/// The memory that a clean context is made from: loops are dealt with, then constraints are merged.
pub open spec fn cleaned(state: State, session: Seq<char>) -> State {
    consolidated(settled(state, session), session)
}

/// Appends `entry`.
fn push_entry(text: &mut String, slot: &TimelineSlot)
    ensures
        final(text)@ == old(text)@ + entry(slot@),
{
    proof {
        reveal_strlit("");
    }
    let ghost before = text@;
    if same_text(slot.temporal_state.as_str(), FUTURE) {
        if let Some(lesson) = &slot.learning_summary {
            let prospective = match &slot.constraint_type {
                Some(kind) => same_text(kind.as_str(), PROSPECTIVE),
                None => false,
            };
            if prospective {
                text.append("[PROSPECTIVE CONSTRAINT]");
            } else {
                text.append("[PREVENTIVE FUTURE CONSTRAINT]");
            }
            text.append(": ");
            text.append(lesson.as_str());
            text.append("\n");
        }
    } else if same_text(slot.temporal_state.as_str(), PRESENT) {
        if let Some(log) = &slot.raw_log {
            text.append("[ACTIVE PRESENT STATE] ");
            if let Some(file) = &slot.file_context {
                text.append("File: ");
                text.append(file.as_str());
            }
            text.append(" | Log: ");
            text.append(log.as_str());
            text.append("\n");
        } else if let Some(note) = &slot.learning_summary {
            text.append("[PRESENT NOTE]: ");
            text.append(note.as_str());
            text.append("\n");
        }
    }
    assert(text@ =~= before + entry(slot@));
}

/// Generates the context of a session: what is present and what constrains the future, without what is
/// past.
pub fn fetch_active_context(memory: &Memory, session_id: &str) -> (text: String)
    ensures
        text@ == active_context(memory@, session_id@),
        shows_all(text@, memory@, session_id@),
{
    proof {
        lemma_all_is_shown(memory@, session_id@);
    }
    let selection = Selection { session: session_id, state: None, ids: None, logged: false };
    let at = memory.find(&selection);
    let ghost picked = at_places(memory@.slots, at@);
    let slots = memory.slots();
    let mut text = "=== VLK CHRONESTHESIA LAYER ===\n".to_owned();
    text.append("Active context: PRESENT (live) + FUTURE (constraints). PAST is archived.\n\n");
    let mut k: usize = 0;
    assert(text@ =~= heading() + entries(picked.take(0)));
    while k < at.len()
        invariant
            k <= at@.len(),
            views(slots@) == memory@.slots,
            picked == at_places(memory@.slots, at@),
            forall|j: int| 0 <= j < at@.len() ==> #[trigger] at@[j] < memory@.slots.len(),
            text@ == heading() + entries(picked.take(k as int)),
        decreases at@.len() - k,
    {
        assert(at@[k as int] < memory@.slots.len());
        let slot = &slots[at[k]];
        assert(picked[k as int] == slot@);
        assert(picked.take(k + 1).drop_last() =~= picked.take(k as int));
        assert(picked.take(k + 1).last() == slot@);
        push_entry(&mut text, slot);
        assert(text@ =~= heading() + entries(picked.take(k + 1)));
        k += 1;
    }
    assert(picked.take(k as int) =~= picked);
    text
}

/// Appends `warning_section`.
pub fn push_warnings(text: &mut String, warnings: &Vec<String>)
    ensures
        final(text)@ == old(text)@ + warning_section(strings(warnings@)),
{
    let ghost all = strings(warnings@);
    let ghost before = text@;
    if warnings.len() == 0 {
        proof {
            reveal_strlit("");
        }
        assert(text@ =~= before + ""@);
        return;
    }
    let title = "\n─── ⚠ CONFLICTING FUTURE CONSTRAINTS DETECTED ───\n";
    text.append(title);
    let mut k: usize = 0;
    assert(text@ =~= before + title@ + warning_lines(all.take(0)));
    while k < warnings.len()
        invariant
            k <= warnings@.len(),
            all == strings(warnings@),
            text@ == before + title@ + warning_lines(all.take(k as int)),
        decreases warnings@.len() - k,
    {
        text.append("  ⚠ ");
        text.append(warnings[k].as_str());
        text.append("\n");
        assert(all.take(k + 1).drop_last() =~= all.take(k as int));
        assert(all.take(k + 1).last() == warnings@[k as int]@);
        assert(text@ =~= before + title@ + warning_lines(all.take(k + 1)));
        k += 1;
    }
    assert(all.take(k as int) =~= all);
    text.append("  → Resolve with vlk_revoke_future before proceeding.\n");
    assert(text@ =~= before + warning_section(all));
}

/// Cleans a session up and generates its context: loops are dealt with, constraints are merged where
/// they are too many, and contradictions among them are pointed out.
pub fn fetch_clean_context(memory: &mut Memory, session_id: &str) -> (text: String)
    requires
        old(memory)@.valid(),
        old(memory)@.room(present_logs(old(memory)@, session_id@).len() as int + 1),
    ensures
        final(memory)@.valid(),
        final(memory)@ == cleaned(old(memory)@, session_id@),
        text@ == annotated_context(final(memory)@, session_id@),
        shows_all(text@, final(memory)@, session_id@),
{
    settle_loops(memory, session_id);
    let _merged = consolidate_future_constraints(memory, session_id);
    let warnings = detect_future_conflicts(memory, session_id);
    let mut text = fetch_active_context(memory, session_id);
    push_warnings(&mut text, &warnings);
    proof {
        lemma_all_is_shown(memory@, session_id@);
    }
    text
}

} // verus!

use vlk_core::conflicts::detect_future_conflicts;
use vlk_core::consolidation::{consolidate_future_constraints, keep_distinct, merge_lessons};
use vlk_core::context::{fetch_active_context, fetch_clean_context, push_warnings};
use vlk_core::keywords::is_held;
use vlk_core::loops::{auto_detect_and_mitigate_loops, find_loop, settle_loops};
use vlk_core::memory::{Change, Memory};
use vlk_core::record::record_present_state;
use vlk_core::revocation::revoke_future_constraint;
use vlk_core::slot::TimelineSlot;
use vlk_core::storage::ids_parameter;
use vlk_core::time_travel::{execute_time_travel, refuse, TimeTravelArgs, TimeTravelError};
use vlk_core::timeline::{get_session_summary, get_timeline, search_timeline, SearchError};
use vlk_core::tokens::estimate_tokens;

const HEADING: &str = "=== VLK CHRONESTHESIA LAYER ===\nActive context: PRESENT (live) + FUTURE (constraints). PAST is archived.\n\n";

fn travel(ids: Vec<i64>, lesson: &str) -> TimeTravelArgs {
    TimeTravelArgs {
        session_id: None,
        target_timeline_ids: ids,
        learning: lesson.to_string(),
        raw_log_excerpt: "it failed".to_string(),
        constraint_type: None,
    }
}

fn record(memory: &mut Memory, log: &str) {
    record_present_state(memory, "default", log, None, None);
}

fn constrain(memory: &mut Memory, lesson: &str) {
    assert!(execute_time_travel(memory, travel(vec![0], lesson)).is_ok());
}

fn states(memory: &Memory) -> Vec<String> {
    get_timeline(memory, "default", -1).iter().rev().map(|s| s.temporal_state.clone()).collect()
}

fn lessons(memory: &Memory) -> Vec<String> {
    get_timeline(memory, "default", -1)
        .iter()
        .rev()
        .filter(|s| s.temporal_state == "FUTURE")
        .map(|s| s.learning_summary.clone().unwrap_or_default())
        .collect()
}

fn slot(id: i64, order: i64, state: &str) -> TimelineSlot {
    TimelineSlot {
        id,
        content_id: None,
        session_id: "default".to_string(),
        sequence_order: order,
        temporal_state: state.to_string(),
        learning_summary: None,
        created_at: None,
        constraint_type: None,
        raw_log: None,
        file_context: None,
    }
}

#[test]
fn recording_adds_a_present_slot() {
    let mut memory = Memory::new();
    assert_eq!(record_present_state(&mut memory, "s", "boom", Some("a.rs"), Some("{}")), 1);
    assert_eq!(record_present_state(&mut memory, "s", "bang", None, None), 2);
    let slots = get_timeline(&memory, "s", 10);
    assert_eq!(slots.len(), 2);
    assert_eq!(slots[0].id, 2);
    assert_eq!(slots[0].content_id, Some(2));
    assert_eq!(slots[0].sequence_order, 2);
    assert_eq!(slots[1].temporal_state, "PRESENT");
    assert_eq!(slots[1].raw_log.as_deref(), Some("boom"));
    assert_eq!(slots[1].file_context.as_deref(), Some("a.rs"));
    assert_eq!(slots[1].learning_summary, None);
    assert_eq!(slots[1].constraint_type, None);
}

#[test]
fn sessions_are_apart() {
    let mut memory = Memory::new();
    record_present_state(&mut memory, "a", "one", None, None);
    record_present_state(&mut memory, "b", "two", None, None);
    let before = fetch_active_context(&memory, "a");
    assert!(!revoke_future_constraint(&mut memory, "b", 1));
    assert!(execute_time_travel(&mut memory, TimeTravelArgs {
        session_id: Some("b".to_string()),
        ..travel(vec![1, 2], "lesson")
    })
    .is_ok());
    assert_eq!(fetch_active_context(&memory, "a"), before);
    assert_eq!(get_timeline(&memory, "b", -1)[0].sequence_order, 2);
}

#[test]
fn time_travel_moves_slots_and_injects_a_constraint() {
    let mut memory = Memory::new();
    record(&mut memory, &"x".repeat(38));
    record(&mut memory, "stays");
    let result = execute_time_travel(&mut memory, travel(vec![1, 1, 7], "  never again \n"));
    match result {
        Ok((tokens, lesson)) => {
            assert_eq!(tokens, 10);
            assert_eq!(lesson, "never again");
        }
        Err(_) => panic!("refused"),
    }
    assert_eq!(states(&memory), vec!["PAST", "PRESENT", "FUTURE"]);
    let newest = &get_timeline(&memory, "default", 1)[0];
    assert_eq!(newest.constraint_type.as_deref(), Some("DERIVED"));
    assert_eq!(newest.learning_summary.as_deref(), Some("never again"));
    assert_eq!(newest.sequence_order, 3);
    assert_eq!(newest.content_id, None);
}

#[test]
fn faulty_time_travel_is_refused() {
    let mut memory = Memory::new();
    record(&mut memory, "log");
    let before = fetch_active_context(&memory, "default");
    let blank = execute_time_travel(&mut memory, travel(vec![1], " \t"));
    assert!(matches!(blank, Err(TimeTravelError::NoLearning)));
    let none = execute_time_travel(&mut memory, travel(vec![], "lesson"));
    assert!(matches!(none, Err(TimeTravelError::NoTargets)));
    let bare = execute_time_travel(&mut memory, TimeTravelArgs {
        raw_log_excerpt: " ".to_string(),
        ..travel(vec![1], "lesson")
    });
    assert!(matches!(bare, Err(TimeTravelError::NoEvidence)));
    let odd = execute_time_travel(&mut memory, TimeTravelArgs {
        constraint_type: Some("derived".to_string()),
        ..travel(vec![1], "lesson")
    });
    match odd {
        Err(error) => assert_eq!(
            error.message(),
            "Field 'constraint_type' must be 'DERIVED' (default) or 'PROSPECTIVE', got 'derived'"
        ),
        Ok(_) => panic!("accepted"),
    }
    assert_eq!(fetch_active_context(&memory, "default"), before);
    assert_eq!(states(&memory), vec!["PRESENT"]);
}

#[test]
fn refusals_can_be_told_beforehand() {
    assert!(refuse(&travel(vec![1], "lesson")).is_none());
    assert!(matches!(refuse(&travel(vec![1], "")), Some(TimeTravelError::NoLearning)));
    assert!(matches!(refuse(&travel(vec![], "lesson")), Some(TimeTravelError::NoTargets)));
}

#[test]
fn refusals_have_their_messages() {
    assert_eq!(TimeTravelError::NoLearning.message(), "Field 'learning' is required and cannot be empty.");
    assert_eq!(
        TimeTravelError::NoTargets.message(),
        "Field 'target_timeline_ids' must contain at least one ID."
    );
    assert_eq!(
        TimeTravelError::NoEvidence.message(),
        "Field 'raw_log_excerpt' is required. Provide 1-2 sentences of the raw error/log that grounds this lesson in evidence. This prevents unverified constraints from being injected."
    );
}

#[test]
fn the_context_shows_present_and_future() {
    let mut memory = Memory::new();
    assert_eq!(fetch_active_context(&memory, "default"), HEADING);
    record_present_state(&mut memory, "default", "boom", Some("a.rs"), None);
    record(&mut memory, "bang");
    constrain(&mut memory, "look first");
    let foresight = TimeTravelArgs {
        constraint_type: Some("PROSPECTIVE".to_string()),
        ..travel(vec![2], "freeze on friday")
    };
    assert!(execute_time_travel(&mut memory, foresight).is_ok());
    assert_eq!(
        fetch_active_context(&memory, "default"),
        format!("{HEADING}[ACTIVE PRESENT STATE] File: a.rs | Log: boom\n[PREVENTIVE FUTURE CONSTRAINT]: look first\n[PROSPECTIVE CONSTRAINT]: freeze on friday\n")
    );
}

#[test]
fn notes_and_bare_slots_in_the_context() {
    let mut note = slot(1, 1, "PRESENT");
    note.learning_summary = Some("remember".to_string());
    let memory = Memory::load(vec![note, slot(2, 2, "FUTURE"), slot(3, 3, "PRESENT")], 4, 1);
    match memory {
        Some(memory) => assert_eq!(
            fetch_active_context(&memory, "default"),
            format!("{HEADING}[PRESENT NOTE]: remember\n")
        ),
        None => panic!("not loaded"),
    }
}

#[test]
fn a_recorded_log_without_a_file() {
    let mut memory = Memory::new();
    record(&mut memory, "boom");
    assert_eq!(
        fetch_active_context(&memory, "default"),
        format!("{HEADING}[ACTIVE PRESENT STATE]  | Log: boom\n")
    );
}

#[test]
fn memories_that_break_the_invariant_are_not_loaded() {
    assert!(Memory::load(vec![slot(1, 1, "PRESENT"), slot(2, 1, "PAST")], 3, 1).is_some());
    assert!(Memory::load(vec![slot(1, 2, "PRESENT"), slot(2, 1, "PAST")], 3, 1).is_none());
    assert!(Memory::load(vec![slot(1, 1, "PRESENT"), slot(1, 2, "PAST")], 3, 1).is_none());
    assert!(Memory::load(vec![slot(3, 1, "PRESENT")], 3, 1).is_none());
    assert!(Memory::load(vec![slot(1, 1, "SOON")], 3, 1).is_none());
    let mut odd = slot(1, 1, "FUTURE");
    odd.constraint_type = Some("GUESSED".to_string());
    assert!(Memory::load(vec![odd], 3, 1).is_none());
    let mut ahead = slot(1, 1, "PRESENT");
    ahead.content_id = Some(5);
    assert!(Memory::load(vec![ahead.duplicate()], 3, 5).is_none());
    assert!(Memory::load(vec![ahead], 3, 6).is_some());
}

#[test]
fn room_runs_out() {
    let memory = Memory::load(vec![slot(1, i64::MAX, "PAST")], 2, 1);
    match memory {
        Some(memory) => {
            assert!(memory.has_room(0));
            assert!(!memory.has_room(1));
            assert!(!memory.can_record("x"));
        }
        None => panic!("not loaded"),
    }
    assert!(Memory::new().can_record("x"));
    assert!(!Memory::new().has_room(u64::MAX));
}

#[test]
fn repeated_logs_are_a_loop() {
    let mut memory = Memory::new();
    record(&mut memory, "same");
    record(&mut memory, " same ");
    assert!(!auto_detect_and_mitigate_loops(&mut memory, "default", 3));
    record(&mut memory, "same");
    record(&mut memory, "other");
    assert!(auto_detect_and_mitigate_loops(&mut memory, "default", 3));
    assert_eq!(states(&memory), vec!["PAST", "PAST", "PAST", "PRESENT", "FUTURE"]);
    assert_eq!(
        lessons(&memory),
        vec!["[SYSTEM ANCHOR] Loop detected (exact): the same error pattern appeared 3 times. Last signature: \"same...\". CURRENT STRATEGY EXHAUSTED. Mandatory: completely change approach. Do not repeat the same action. Try another tool, another file, or consult the user."]
    );
    assert!(!auto_detect_and_mitigate_loops(&mut memory, "default", 3));
}

#[test]
fn near_duplicates_are_a_loop() {
    let mut memory = Memory::new();
    record(&mut memory, "error[E0277]: a");
    record(&mut memory, "error[E0277]: b");
    record(&mut memory, "error[E0277]: c");
    assert!(auto_detect_and_mitigate_loops(&mut memory, "default", 3));
    assert_eq!(
        lessons(&memory),
        vec!["[SYSTEM ANCHOR] Loop detected (fingerprint): the same error pattern appeared 3 times. Last signature: \"error[E0277]...\". CURRENT STRATEGY EXHAUSTED. Mandatory: completely change approach. Do not repeat the same action. Try another tool, another file, or consult the user."]
    );
    assert_eq!(states(&memory), vec!["PAST", "PAST", "PAST", "FUTURE"]);
}

#[test]
fn the_same_log_goes_before_the_same_fingerprint() {
    let ids = vec![4, 3, 2, 1];
    let logs: Vec<String> = ["a", "b", "a", "c"].iter().map(|s| s.to_string()).collect();
    let prints: Vec<String> = ["x", "x", "x", "x"].iter().map(|s| s.to_string()).collect();
    match find_loop(&ids, &logs, &prints, 2) {
        Some(found) => {
            assert_eq!(found.ids, vec![4, 2]);
            assert_eq!(found.signature, "a");
            assert!(found.exact);
        }
        None => panic!("no loop"),
    }
    match find_loop(&ids, &logs, &prints, 3) {
        Some(found) => {
            assert_eq!(found.ids, ids);
            assert!(!found.exact);
        }
        None => panic!("no loop"),
    }
    assert!(find_loop(&ids, &logs, &prints, 5).is_none());
    match find_loop(&vec![], &vec![], &vec![], 0) {
        Some(found) => assert!(found.ids.is_empty() && found.signature.is_empty() && found.exact),
        None => panic!("no loop"),
    }
}

#[test]
fn the_largest_group_is_the_loop() {
    let ids = vec![1, 2, 3, 4, 5];
    let logs: Vec<String> = ["a", "b", "b", "a", "b"].iter().map(|s| s.to_string()).collect();
    match find_loop(&ids, &logs, &logs, 2) {
        Some(found) => assert_eq!(found.ids, vec![2, 3, 5]),
        None => panic!("no loop"),
    }
}

#[test]
fn all_loops_are_settled() {
    let mut memory = Memory::new();
    for _ in 0..3 {
        record(&mut memory, "503 Service Unavailable");
        record(&mut memory, "TS2345");
    }
    settle_loops(&mut memory, "default");
    assert_eq!(lessons(&memory).len(), 2);
    assert!(!auto_detect_and_mitigate_loops(&mut memory, "default", 3));
}

#[test]
fn any_log_can_be_looked_at() {
    let mut memory = Memory::new();
    record(&mut memory, "\u{130} KeyErrorñ: x");
    assert!(fetch_clean_context(&mut memory, "default").contains("Log: \u{130} KeyErrorñ: x"));
    record(&mut memory, "\u{130} KeyErrorñ: x");
    record(&mut memory, "\u{130} KeyErrorñ: x");
    assert!(fetch_clean_context(&mut memory, "default").contains("appeared 3 times"));
}

#[test]
fn the_same_panic_at_different_times_is_a_loop() {
    let mut memory = Memory::new();
    for second in 1..4 {
        record(&mut memory, &format!("10:00:0{second} panic: boom"));
    }
    assert!(auto_detect_and_mitigate_loops(&mut memory, "default", 3));
    assert!(lessons(&memory)[0].contains("(fingerprint)"));
    assert!(lessons(&memory)[0].contains("\"panic: boom...\""));
}

#[test]
fn many_constraints_are_merged() {
    let mut memory = Memory::new();
    for lesson in ["Use cache", "b", "c", "d", "e"] {
        constrain(&mut memory, lesson);
    }
    assert!(!consolidate_future_constraints(&mut memory, "default"));
    constrain(&mut memory, "USE CACHE");
    assert!(consolidate_future_constraints(&mut memory, "default"));
    assert_eq!(
        lessons(&memory),
        vec!["[CONSOLIDATED CONSTRAINTS from 5 prior lessons]: Use cache | b | c | d | e"]
    );
    assert!(!consolidate_future_constraints(&mut memory, "default"));
}

#[test]
fn merging_keeps_the_newest_lessons_that_fit() {
    let long: Vec<String> = (0..6).map(|i| i.to_string().repeat(600)).collect();
    assert_eq!(
        merge_lessons(&long),
        format!(
            "[CONSOLIDATED CONSTRAINTS from 6 lessons, truncated to 3 newest]: {} | {} | {}",
            long[3], long[4], long[5]
        )
    );
    let header = "[CONSOLIDATED CONSTRAINTS from 2 prior lessons]: ";
    let fitting = vec!["é".repeat(1000 - header.len()), "y".repeat(997)];
    let whole = merge_lessons(&fitting);
    assert_eq!(whole, format!("{header}{} | {}", fitting[0], fitting[1]));
    assert_eq!(whole.chars().count(), 2000);
    let longer = vec!["é".repeat(1001 - header.len()), "y".repeat(997)];
    assert_eq!(
        merge_lessons(&longer),
        format!("[CONSOLIDATED CONSTRAINTS from 2 lessons, truncated to 1 newest]: {}", longer[1])
    );
    let huge = vec!["z".repeat(1990)];
    assert_eq!(merge_lessons(&huge), "[CONSOLIDATED CONSTRAINTS from 1 lessons, truncated to 0 newest]: ");
    assert_eq!(merge_lessons(&vec![]), "[CONSOLIDATED CONSTRAINTS from 0 prior lessons]: ");
}

#[test]
fn the_first_of_equal_lessons_is_kept() {
    let lessons: Vec<String> = ["A", "b", "a"].iter().map(|s| s.to_string()).collect();
    let keys: Vec<String> = ["a", "b", "a"].iter().map(|s| s.to_string()).collect();
    assert_eq!(keep_distinct(&lessons, &keys), vec!["A", "b"]);
}

#[test]
fn non_ascii_lessons_are_compared_without_case() {
    let mut memory = Memory::new();
    for lesson in ["ÑANDÚ", "b", "c", "d", "e", "ñandú"] {
        constrain(&mut memory, lesson);
    }
    assert!(consolidate_future_constraints(&mut memory, "default"));
    assert_eq!(
        lessons(&memory),
        vec!["[CONSOLIDATED CONSTRAINTS from 5 prior lessons]: ÑANDÚ | b | c | d | e"]
    );
}

#[test]
fn contradictions_are_detected() {
    let mut memory = Memory::new();
    assert!(detect_future_conflicts(&memory, "default").is_empty());
    constrain(&mut memory, "Retry with exponential backoff");
    assert!(detect_future_conflicts(&memory, "default").is_empty());
    constrain(&mut memory, "NEVER RETRY on 429");
    constrain(&mut memory, "Prefer linear backoff");
    assert_eq!(
        detect_future_conflicts(&memory, "default"),
        vec![
            "Constraint #1 vs #2: retry vs. never retry (\"retry\" ↔ \"never retry\")",
            "Constraint #1 vs #3: exponential vs. linear backoff (\"exponential backoff\" ↔ \"linear backoff\")",
        ]
    );
}

#[test]
fn a_pair_is_warned_of_once() {
    let mut memory = Memory::new();
    constrain(&mut memory, "use proxy and use cache");
    constrain(&mut memory, "do not cache; connect directly");
    assert_eq!(
        detect_future_conflicts(&memory, "default"),
        vec!["Constraint #1 vs #2: cache vs. do not cache (\"use cache\" ↔ \"do not cache\")"]
    );
}

#[test]
fn the_clean_context_warns_of_contradictions() {
    let mut memory = Memory::new();
    constrain(&mut memory, "use cache");
    constrain(&mut memory, "never cache");
    assert_eq!(
        fetch_clean_context(&mut memory, "default"),
        format!("{HEADING}[PREVENTIVE FUTURE CONSTRAINT]: use cache\n[PREVENTIVE FUTURE CONSTRAINT]: never cache\n\n─── ⚠ CONFLICTING FUTURE CONSTRAINTS DETECTED ───\n  ⚠ Constraint #1 vs #2: cache vs. never cache (\"use cache\" ↔ \"never cache\")\n  → Resolve with vlk_revoke_future before proceeding.\n")
    );
}

#[test]
fn warnings_are_listed_one_a_line() {
    let mut text = "x".to_string();
    push_warnings(&mut text, &vec![]);
    assert_eq!(text, "x");
    push_warnings(&mut text, &vec!["a".to_string(), "b".to_string()]);
    assert_eq!(
        text,
        "x\n─── ⚠ CONFLICTING FUTURE CONSTRAINTS DETECTED ───\n  ⚠ a\n  ⚠ b\n  → Resolve with vlk_revoke_future before proceeding.\n"
    );
}

#[test]
fn the_clean_context_shows_no_loop_and_is_stable() {
    let mut memory = Memory::new();
    for n in 0..4 {
        record(&mut memory, &format!("panic: index out of range [{n}]"));
    }
    record(&mut memory, "fresh");
    let first = fetch_clean_context(&mut memory, "default");
    assert!(!first.contains("index out of range ["));
    assert!(first.contains("appeared 4 times"));
    assert!(first.contains("Log: fresh"));
    memory.take_changes();
    assert_eq!(fetch_clean_context(&mut memory, "default"), first);
    assert!(memory.take_changes().is_empty());
}

#[test]
fn constraints_are_revoked_once() {
    let mut memory = Memory::new();
    constrain(&mut memory, "wrong");
    constrain(&mut memory, "right");
    record(&mut memory, "log");
    assert!(!revoke_future_constraint(&mut memory, "default", 3));
    assert!(!revoke_future_constraint(&mut memory, "other", 1));
    assert!(revoke_future_constraint(&mut memory, "default", 1));
    assert!(!revoke_future_constraint(&mut memory, "default", 1));
    assert_eq!(lessons(&memory), vec!["right"]);
    assert_eq!(states(&memory), vec!["PAST", "FUTURE", "PRESENT"]);
}

#[test]
fn history_is_newest_first_and_limited() {
    let mut memory = Memory::new();
    for log in ["a", "b", "c"] {
        record(&mut memory, log);
    }
    let ids = |limit: i64| -> Vec<i64> { get_timeline(&memory, "default", limit).iter().map(|s| s.id).collect() };
    assert_eq!(ids(2), vec![3, 2]);
    assert_eq!(ids(9), vec![3, 2, 1]);
    assert_eq!(ids(-5), vec![3, 2, 1]);
    assert!(ids(0).is_empty());
}

#[test]
fn searches_read_logs_and_lessons() {
    let mut memory = Memory::new();
    record(&mut memory, "Connection REFUSED by host");
    record(&mut memory, "all fine");
    constrain(&mut memory, "check the connection");
    let found = |query: &str, limit: i64| -> Vec<i64> {
        match search_timeline(&memory, "default", query, limit) {
            Ok(slots) => slots.iter().map(|s| s.id).collect(),
            Err(_) => panic!("search failed"),
        }
    };
    assert_eq!(found("connection", 20), vec![3, 1]);
    assert_eq!(found("connection", 1), vec![3]);
    assert_eq!(found("refused", -1), vec![1]);
    assert!(found("f_ne", -1).is_empty());
    assert!(found("%", -1).is_empty());
    assert!(found("absent", -1).is_empty());
    assert!(found("connection", 0).is_empty());
}

#[test]
fn keywords_fold_the_case_of_ascii_letters_only() {
    assert!(is_held("an error", "ERR"));
    assert!(is_held("an error", "an error"));
    assert!(!is_held("an error", "an errors"));
    assert!(is_held("", ""));
    assert!(!is_held("a", "%"));
    assert!(is_held("100% _done_", "% _D"));
    assert!(is_held("año", "ñ"));
    assert!(!is_held("año", "Ñ"));
}

#[test]
fn overlong_queries_fail() {
    let mut memory = Memory::new();
    let long = "q".repeat(49_999);
    assert!(matches!(search_timeline(&memory, "default", &long, 5), Ok(slots) if slots.is_empty()));
    record(&mut memory, "log");
    assert!(matches!(
        search_timeline(&memory, "default", &long, 5),
        Err(SearchError::PatternTooComplex)
    ));
    assert!(search_timeline(&memory, "default", &long, 0).is_ok());
    assert!(search_timeline(&memory, "default", &long[..49_998], 5).is_ok());
    assert_eq!(
        SearchError::PatternTooComplex.message(),
        "error returned from database: (code: 1) LIKE or GLOB pattern too complex"
    );
}

#[test]
fn summaries_count_slots_and_tokens() {
    let mut memory = Memory::new();
    assert_eq!(
        get_session_summary(&memory, "default"),
        "Session 'default': 0 total timeline slots | 0 PRESENT (active) | 0 PAST (archived) | 0 FUTURE (constraints) | ~0 estimated tokens in raw_log data."
    );
    record(&mut memory, "12345");
    record(&mut memory, "1234");
    assert!(execute_time_travel(&mut memory, travel(vec![1], "lesson")).is_ok());
    assert_eq!(
        get_session_summary(&memory, "default"),
        "Session 'default': 3 total timeline slots | 1 PRESENT (active) | 1 PAST (archived) | 1 FUTURE (constraints) | ~3 estimated tokens in raw_log data."
    );
}

#[test]
fn tokens_are_rounded_up() {
    assert_eq!(estimate_tokens(0), 0);
    assert_eq!(estimate_tokens(1), 1);
    assert_eq!(estimate_tokens(19), 5);
    assert_eq!(estimate_tokens(20), 6);
    for n in 0..5000i64 {
        assert_eq!(estimate_tokens(n), ((n as f64) / 3.8).ceil() as i64);
    }
}

#[test]
fn logs_are_measured_up_to_the_first_nul() {
    let mut memory = Memory::new();
    record(&mut memory, "abcd\0efgh");
    assert!(get_session_summary(&memory, "default").contains("~2 estimated tokens"));
}

#[test]
fn changes_are_handed_over_once() {
    let mut memory = Memory::new();
    record_present_state(&mut memory, "default", "boom", None, Some("{}"));
    assert!(execute_time_travel(&mut memory, travel(vec![1, 9], "lesson")).is_ok());
    let changes = memory.take_changes();
    assert_eq!(changes.len(), 4);
    match &changes[0] {
        Change::StoreContent(content) => {
            assert_eq!(content.id, 1);
            assert_eq!(content.raw_log, "boom");
            assert_eq!(content.tool_payload.as_deref(), Some("{}"));
        }
        other => panic!("{other:?}"),
    }
    assert!(matches!(&changes[1], Change::InsertSlot(s) if s.id == 1 && s.temporal_state == "PRESENT"));
    assert!(matches!(&changes[2], Change::ArchiveSlots(ids) if ids == &vec![1]));
    assert!(matches!(&changes[3], Change::InsertSlot(s) if s.id == 2 && s.temporal_state == "FUTURE"));
    assert!(memory.take_changes().is_empty());
}

#[test]
fn what_is_past_stays_past() {
    let mut memory = Memory::new();
    record(&mut memory, "boom");
    assert!(execute_time_travel(&mut memory, travel(vec![1], "lesson")).is_ok());
    assert!(execute_time_travel(&mut memory, travel(vec![1, 2], "again")).is_ok());
    assert_eq!(states(&memory), vec!["PAST", "FUTURE", "FUTURE"]);
    assert_eq!(get_timeline(&memory, "default", -1)[2].raw_log.as_deref(), Some("boom"));
}

#[test]
fn ids_are_handed_to_the_store_as_json() {
    assert_eq!(ids_parameter(&vec![]), "[]");
    assert_eq!(ids_parameter(&vec![7]), "[7]");
    assert_eq!(ids_parameter(&vec![1, -20, i64::MIN]), "[1,-20,-9223372036854775808]");
}

//! What a log says of failed test assertions.
use vstd::prelude::*;
use crate::casing::{lower_all, lowered, raise_all, raised};
use crate::runtime_errors::{behind, read_behind};
use crate::text::{
    begins_with, chars_of, contains, find, first_words, has, head, leading_words, pair, position_of, prefix, shown,
    starts_with, tail, text_of,
};
use crate::timestamps::{strip_timestamps, without_timestamps};

verus! {

/// Whether the lowered log sets what was expected against what came.
pub open spec fn says_expected(low: Seq<char>) -> bool {
    contains(low, "expected"@) && (contains(low, "got"@) || contains(low, "but"@))
}

/// Whether the lowered log names an assertion error.
pub open spec fn says_assertion_error(low: Seq<char>) -> bool {
    contains(low, "assertionerror"@) || contains(low, "assertion error"@)
}

/// Whether the lowered log reports a failed test with an assertion.
pub open spec fn says_failed(low: Seq<char>) -> bool {
    starts_with(low, "failed"@) && contains(low, "assertion"@)
}

/// Whether the lowered log holds a Jest or Vitest expectation.
pub open spec fn says_expect_call(low: Seq<char>) -> bool {
    (contains(low, "expect("@) && contains(low, "tobe("@)) || contains(low, "toequal("@)
}

/// Where the lowered log holds a failed assertion of a Rust test.
pub open spec fn rust_assertion(low: Seq<char>) -> Option<int> {
    match find(low, "assertion failed"@) {
        Some(i) => Some(i),
        None => match find(low, "assert_eq!"@) {
            Some(i) => Some(i),
            None => find(low, "assert_ne!"@),
        },
    }
}

/// Where a log first speaks of an assertion. In upper case a sharp s is two letters.
pub open spec fn assertion_at(log: Seq<char>) -> Option<int> {
    let up = raised(log);
    match (find(up, "ASSERTION"@), find(up, "AßERTION"@)) {
        (Some(i), Some(j)) => Some(if i <= j {
            i
        } else {
            j
        }),
        (Some(i), None) => Some(i),
        (None, other) => other,
    }
}

/// `assertion_at` on a slice.
fn find_assertion(log: &[char]) -> (at: Option<usize>)
    ensures
        match at {
            None => assertion_at(log@) is None,
            Some(i) => assertion_at(log@) == Some(i as int) && i <= log@.len(),
        },
{
    let up = raise_all(log);
    match (position_of(up.as_slice(), "ASSERTION"), position_of(up.as_slice(), "AßERTION")) {
        (Some(i), Some(j)) => Some(if i <= j {
            i
        } else {
            j
        }),
        (Some(i), None) => Some(i),
        (None, other) => other,
    }
}

/// The start of an assertion's text, its times masked.
pub open spec fn assertion_text(text: Seq<char>) -> Seq<char> {
    "assert: "@ + prefix(without_timestamps(text), 60)
}

/// The assertion failure that a log reports.
pub open spec fn test_failure(log: Seq<char>) -> Option<Seq<char>> {
    let low = lowered(log);
    if says_expected(low) {
        Some("assert: expected "@ + first_words(behind(log, "expected"@), 6))
    } else if says_assertion_error(low) {
        match assertion_at(log) {
            None => Some("assert: AssertionError"@),
            Some(i) => Some(assertion_text(log.skip(i))),
        }
    } else if says_failed(low) {
        Some("test: failed assertion"@)
    } else if says_expect_call(low) {
        Some("test: expect assertion"@)
    } else {
        match rust_assertion(low) {
            None => None,
            Some(i) => Some(assertion_text(log.skip(i))),
        }
    }
}

/// `assertion_text` on a slice.
fn read_assertion(text: &[char]) -> (start: String)
    ensures
        start@ == assertion_text(text@),
{
    let masked = strip_timestamps(text_of(text).as_str());
    let chars = chars_of(masked.as_str());
    pair("assert: ", text_of(head(chars.as_slice(), 60)).as_str())
}

/// `rust_assertion` on a slice.
fn find_rust_assertion(low: &[char]) -> (at: Option<usize>)
    ensures
        match at {
            None => rust_assertion(low@) is None,
            Some(i) => rust_assertion(low@) == Some(i as int) && i <= low@.len(),
        },
{
    if let Some(i) = position_of(low, "assertion failed") {
        return Some(i);
    }
    if let Some(i) = position_of(low, "assert_eq!") {
        return Some(i);
    }
    position_of(low, "assert_ne!")
}

/// Extracts the assertion failure that a log of one of the common test frameworks reports.
pub fn extract_test_failure(log: &str) -> (found: Option<String>)
    ensures
        shown(found) == test_failure(log@),
{
    let chars = chars_of(log);
    let low_chars = lower_all(chars.as_slice());
    let low = low_chars.as_slice();
    if has(low, "expected") && (has(low, "got") || has(low, "but")) {
        let rest = chars_of(read_behind(chars.as_slice(), low, "expected").as_str());
        Some(pair("assert: expected ", leading_words(rest.as_slice(), 6).as_str()))
    } else if has(low, "assertionerror") || has(low, "assertion error") {
        match find_assertion(chars.as_slice()) {
            None => Some("assert: AssertionError".to_owned()),
            Some(i) => Some(read_assertion(tail(chars.as_slice(), i))),
        }
    } else if begins_with(low, "failed") && has(low, "assertion") {
        Some("test: failed assertion".to_owned())
    } else if (has(low, "expect(") && has(low, "tobe(")) || has(low, "toequal(") {
        Some("test: expect assertion".to_owned())
    } else {
        match find_rust_assertion(low) {
            None => None,
            Some(i) => Some(read_assertion(tail(chars.as_slice(), i))),
        }
    }
}

} // verus!

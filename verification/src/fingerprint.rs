//! Fingerprints: a short text that near-duplicates of a log share.
use vstd::prelude::*;
use crate::compiler_errors::{
    extract_rust_error_code, extract_script_error, extract_unnamed_error, rust_error_code, script_error,
    unnamed_error,
};
use crate::http_errors::{extract_http_error, http_error};
use crate::runtime_errors::{extract_panic, extract_python_error, panic_found, python_error};
use crate::test_failures::{extract_test_failure, test_failure};
use crate::text::{chars_of, head, prefix, text_of, trim, trimmed};
use crate::timestamps::{is_lone_date_time, is_lone_time, strip_timestamps, without_timestamps};

verus! {

/// The start of a log that holds no known pattern, with its points in time masked.
pub open spec fn plain_fingerprint(log: Seq<char>) -> Seq<char> {
    trim(without_timestamps(prefix(log, 80)))
}

/// Whether a log reports no error of a compiler, a script or Python, and none without a name.
pub open spec fn no_error(log: Seq<char>) -> bool {
    &&& rust_error_code(log) is None
    &&& script_error(log) is None
    &&& python_error(log) is None
    &&& unnamed_error(log) is None
}

/// Whether a log reports no such error and no panic.
pub open spec fn no_panic(log: Seq<char>) -> bool {
    no_error(log) && panic_found(log) is None
}

/// Whether a log reports no such error, no panic and no failed test.
pub open spec fn no_failure(log: Seq<char>) -> bool {
    no_panic(log) && test_failure(log) is None
}

/// Whether a log holds no known pattern.
pub open spec fn no_pattern(log: Seq<char>) -> bool {
    no_failure(log) && http_error(log) is None
}

/// The fingerprint of a trimmed log: what the most specific pattern says that the log holds.
pub open spec fn fingerprint_of(log: Seq<char>) -> Seq<char> {
    if let Some(code) = rust_error_code(log) {
        code
    } else if let Some(error) = script_error(log) {
        error
    } else if let Some(exception) = python_error(log) {
        exception
    } else if let Some(error) = unnamed_error(log) {
        error
    } else if let Some(panic) = panic_found(log) {
        panic
    } else if let Some(failure) = test_failure(log) {
        failure
    } else if let Some(status) = http_error(log) {
        status
    } else {
        plain_fingerprint(log)
    }
}

/// The fingerprint of a log, which is that of the log trimmed.
pub open spec fn fingerprint(log: Seq<char>) -> Seq<char> {
    fingerprint_of(trim(log))
}

/// `plain_fingerprint` on a string.
fn fall_back(log: &str) -> (text: String)
    ensures
        text@ == plain_fingerprint(log@),
        forall|a: Seq<char>, t: Seq<char>, b: Seq<char>|
            #[trigger] (a + t + b) == prefix(log@, 80) && is_lone_time(a, t, b) ==> text@ == trim(
                without_timestamps(a) + "[TIME]"@ + without_timestamps(b),
            ),
        forall|a: Seq<char>, t: Seq<char>, b: Seq<char>|
            #[trigger] (a + t + b) == prefix(log@, 80) && is_lone_date_time(a, t, b) ==> text@ == trim(
                without_timestamps(a) + "[TIMESTAMP]"@ + without_timestamps(b),
            ),
{
    let chars = chars_of(log);
    let masked = strip_timestamps(text_of(head(chars.as_slice(), 80)).as_str());
    let masked_chars = chars_of(masked.as_str());
    text_of(trimmed(masked_chars.as_slice()))
}

/// Extracts the fingerprint of a log. Where the log holds no known pattern, a time that stands alone in its
/// start does not matter.
pub fn fingerprint_log(raw_log: &str) -> (text: String)
    ensures
        text@ == fingerprint(raw_log@),
        forall|a: Seq<char>, t: Seq<char>, b: Seq<char>|
            no_pattern(trim(raw_log@)) && #[trigger] (a + t + b) == prefix(trim(raw_log@), 80)
                && is_lone_time(a, t, b) ==> text@ == trim(
                without_timestamps(a) + "[TIME]"@ + without_timestamps(b),
            ),
        forall|a: Seq<char>, t: Seq<char>, b: Seq<char>|
            no_pattern(trim(raw_log@)) && #[trigger] (a + t + b) == prefix(trim(raw_log@), 80)
                && is_lone_date_time(a, t, b) ==> text@ == trim(
                without_timestamps(a) + "[TIMESTAMP]"@ + without_timestamps(b),
            ),
{
    let chars = chars_of(raw_log);
    let log = text_of(trimmed(chars.as_slice()));
    if let Some(text) = extract_rust_error_code(log.as_str()) {
        return text;
    }
    if let Some(text) = extract_script_error(log.as_str()) {
        return text;
    }
    if let Some(text) = extract_python_error(log.as_str()) {
        return text;
    }
    if let Some(text) = extract_unnamed_error(log.as_str()) {
        return text;
    }
    if let Some(text) = extract_panic(log.as_str()) {
        return text;
    }
    if let Some(text) = extract_test_failure(log.as_str()) {
        return text;
    }
    if let Some(text) = extract_http_error(log.as_str()) {
        return text;
    }
    fall_back(log.as_str())
}

} // verus!

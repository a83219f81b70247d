use vlk_core::compiler_errors::{
    extract_rust_error_code, extract_script_error, extract_ts_error, extract_unnamed_error,
};
use vlk_core::fingerprint::fingerprint_log;
use vlk_core::http_errors::extract_http_error;
use vlk_core::runtime_errors::{extract_panic, extract_python_error};
use vlk_core::test_failures::extract_test_failure;
use vlk_core::timestamps::strip_timestamps;

fn some(text: &str) -> Option<String> {
    Some(text.to_string())
}

#[test]
fn rust_codes_are_extracted() {
    assert_eq!(extract_rust_error_code("error[E0277]: the trait bound"), some("error[E0277]"));
    assert_eq!(extract_rust_error_code("src/a.rs: error[E12345] x"), some("error[E12345]"));
    assert_eq!(extract_rust_error_code("error[E027]: short"), None);
    assert_eq!(extract_rust_error_code("error[X0277]: letter"), None);
    assert_eq!(extract_rust_error_code("error[E02a7]: digit"), None);
    assert_eq!(extract_rust_error_code("error[E0277"), None);
    assert_eq!(extract_rust_error_code("all is well"), None);
}

#[test]
fn only_the_first_rust_code_counts() {
    assert_eq!(extract_rust_error_code("error[x] then error[E0277]"), None);
}

#[test]
fn typescript_codes_are_extracted() {
    assert_eq!(extract_ts_error("a.ts(1,2): error TS2345: Argument"), some("TS2345"));
    assert_eq!(extract_ts_error("TS12: too short"), None);
    assert_eq!(extract_ts_error("TS2345"), some("TS2345"));
}

#[test]
fn javascript_errors_are_extracted() {
    assert_eq!(extract_ts_error("TypeError: x is not a function"), some("TypeError: x"));
    assert_eq!(extract_ts_error("Uncaught ReferenceError: foo is not defined"), some("ReferenceError: foo"));
    assert_eq!(extract_ts_error("SyntaxError Unexpected token"), some("SyntaxError: Unexpected"));
    assert_eq!(extract_ts_error("RangeError"), some("RangeError: "));
    assert_eq!(extract_ts_error("URIError: malformed"), some("URIError: malformed"));
    assert_eq!(extract_ts_error("EvalError: no"), some("EvalError: no"));
    assert_eq!(extract_ts_error("Error: ENOENT no such file"), some("Error: ENOENT"));
    assert_eq!(extract_ts_error("fine"), None);
}

#[test]
fn errors_without_a_name_are_told_apart() {
    assert_eq!(extract_script_error("Error: ENOENT"), None);
    assert_eq!(extract_unnamed_error("Error: ENOENT no such file"), some("Error: ENOENT"));
    assert_eq!(extract_unnamed_error("an error: lower case"), None);
    assert_eq!(extract_script_error("TypeError: x"), some("TypeError: x"));
}

#[test]
fn times_in_messages_are_masked() {
    assert_eq!(extract_ts_error("TypeError: 14:32:01 boom"), some("TypeError: [TIME]"));
    assert_eq!(extract_ts_error("TypeError: 2024-01-15T14:32:01Z boom"), some("TypeError: [TIMESTAMP]"));
}

#[test]
fn python_exceptions_are_extracted() {
    assert_eq!(
        extract_python_error("keyerror: 'x' missing in the dict"),
        some("KeyError: 'x' missing in the")
    );
    assert_eq!(extract_python_error("ZeroDivisionError : division by zero"), some("ZeroDivisionError: division by zero"));
    assert_eq!(extract_python_error("a ValueError without a message"), None);
    assert_eq!(extract_python_error("nothing here"), None);
}

#[test]
fn the_last_exception_of_a_traceback_counts() {
    assert_eq!(extract_python_error("ValueError: bad\nKeyError: 'a'"), some("KeyError: 'a'"));
    assert_eq!(extract_python_error("KeyError: 'a'\nValueError: bad\n"), some("ValueError: bad"));
    assert_eq!(
        extract_python_error("KeyError: 'a'\r\nDuring handling:\nan OSError without more"),
        some("KeyError: 'a'")
    );
    assert_eq!(extract_python_error("IndexError: out\nof range"), some("IndexError: out"));
    assert_eq!(extract_python_error("IndexError\n: no"), None);
}

#[test]
fn python_messages_are_masked() {
    assert_eq!(extract_python_error("TimeoutError: at 14:32:01 again"), some("TimeoutError: at [TIME] again"));
}

#[test]
fn go_panics_are_extracted() {
    assert_eq!(
        extract_panic("panic: runtime error: invalid memory address or nil pointer dereference"),
        some("panic: nil pointer dereference")
    );
    assert_eq!(extract_panic("panic: runtime error: index out of range [3]"), some("panic: index out of range"));
    assert_eq!(extract_panic("panic: close of closed channel"), some("panic: close of closed channel"));
    assert_eq!(extract_panic("panic: send on closed channel"), some("panic: send on closed channel"));
    assert_eq!(extract_panic("panic: concurrent map iteration"), some("panic: concurrent map write"));
    assert_eq!(extract_panic("PANIC: a b c d e"), some("panic: a b c d"));
    assert_eq!(extract_panic("fatal error: concurrent map writes"), some("fatal error: concurrent map writes"));
}

#[test]
fn times_around_panics_do_not_matter() {
    assert_eq!(extract_panic("10:00:01 panic: boom"), some("panic: boom"));
    assert_eq!(extract_panic("10:00:01 Fatal Error: boom at 10:00:01"), some("fatal error: boom at [TIME]"));
    assert_eq!(extract_panic("panic: at 2024-01-15 10:00:01 again"), some("panic: at [TIMESTAMP] again"));
    assert_eq!(extract_panic("panicked at 'late 10:00:01'"), some("panic: late [TIME]"));
    assert_eq!(fingerprint_log("10:00:01 panic: boom"), fingerprint_log("10:00:02 panic: boom"));
}

#[test]
fn rust_panics_are_extracted() {
    assert_eq!(
        extract_panic("thread 'main' panicked at 'boom now', src/main.rs"),
        some("panic: boom now")
    );
    assert_eq!(extract_panic("thread 'main' panicked at src/main.rs"), some("panic: (unknown)"));
    assert_eq!(extract_panic("calm"), None);
    let long = "x".repeat(70);
    assert_eq!(
        extract_panic(&format!("panicked at '{long}'")),
        some(&format!("panic: {}", "x".repeat(60)))
    );
}

#[test]
fn test_failures_are_extracted() {
    assert_eq!(extract_test_failure("expected: 4, got: 5"), some("assert: expected : 4, got: 5"));
    assert_eq!(
        extract_test_failure("AssertionError [ERR_ASSERTION]: nope"),
        some("assert: AssertionError [ERR_ASSERTION]: nope")
    );
    assert_eq!(extract_test_failure("an assertionerror"), some("assert: assertionerror"));
    assert_eq!(extract_test_failure("FAILED test_x - assertion"), some("test: failed assertion"));
    assert_eq!(extract_test_failure("assertion failed: left == right"), some("assert: assertion failed: left == right"));
    assert_eq!(extract_test_failure("at assert_eq!(1, 2)"), some("assert: assert_eq!(1, 2)"));
    assert_eq!(extract_test_failure("at assert_ne!(1, 1)"), some("assert: assert_ne!(1, 1)"));
    assert_eq!(extract_test_failure("assertion failed: 10:00:01 == 10:00:02"), some("assert: assertion failed: [TIME] == [TIME]"));
    assert_eq!(extract_test_failure("expected 10:00:01 but got 10:00:02"), some("assert: expected [TIME] but got [TIME]"));
    assert_eq!(extract_test_failure("all passed"), None);
}

#[test]
fn expectations_of_javascript_tests_are_recognised() {
    assert_eq!(extract_test_failure("expect(received).toBe(expected)"), some("test: expect assertion"));
    assert_eq!(extract_test_failure("x.toEqual(y)"), some("test: expect assertion"));
}

#[test]
fn http_errors_are_extracted() {
    assert_eq!(extract_http_error("503 Service Unavailable"), some("HTTP 503 Service Unavailable"));
    assert_eq!(extract_http_error("got 429 Too Many Requests now"), some("HTTP 429 Too Many Requests"));
    assert_eq!(extract_http_error("Error 500"), some("HTTP 500 "));
    assert_eq!(extract_http_error("HTTP/1.1 502 Bad-Gateway!"), some("HTTP 502 Bad-Gateway"));
    assert_eq!(extract_http_error("status=(404)"), some("HTTP 404 "));
    assert_eq!(extract_http_error("500 —— ¡ñandú!"), some("HTTP 500 ñandú"));
    assert_eq!(extract_http_error("700 and 099 and 1234"), None);
    assert_eq!(extract_http_error("99 bottles"), None);
}

#[test]
fn timestamps_are_masked() {
    assert_eq!(
        strip_timestamps("at 14:32:01.123 and 2024-01-15 14:32:01+02:00"),
        "at [TIME] and [TIMESTAMP]"
    );
    assert_eq!(strip_timestamps("no time at all"), "no time at all");
    assert_eq!(strip_timestamps("a: b, c: d; 12:30"), "a: b, c: d; 12:30");
    assert_eq!(strip_timestamps("14:32:01"), "[TIME]");
    assert_eq!(strip_timestamps("23:59:59"), "[TIME]");
    assert_eq!(strip_timestamps("2024-01-15T14:32:01"), "[TIMESTAMP]");
    assert_eq!(strip_timestamps("1999-12-31 23:59:59"), "[TIMESTAMP]");
}

#[test]
fn patterns_rank_by_specificity() {
    assert_eq!(fingerprint_log("  error[E0597] TS2345 503 x  "), "error[E0597]");
    assert_eq!(fingerprint_log("TS2345 panic: x"), "TS2345");
    assert_eq!(fingerprint_log("KeyError: 'id'"), "KeyError: 'id'");
    assert_eq!(fingerprint_log("KeyError : k panic: x"), "KeyError: k panic: x");
    assert_eq!(fingerprint_log("AssertionError: 1 != 2"), "AssertionError: 1 != 2");
    assert_eq!(fingerprint_log("Error: panic: x"), "Error: panic:");
    assert_eq!(fingerprint_log("Error: expected a but got b"), "Error: expected");
    assert_eq!(fingerprint_log("Error: ENOENT 503 x"), "Error: ENOENT");
    assert_eq!(fingerprint_log("panic: expected got"), "panic: expected got");
    assert_eq!(fingerprint_log("expected 200 but got 503"), "assert: expected 200 but got 503");
    assert_eq!(fingerprint_log("503 Service Unavailable"), "HTTP 503 Service Unavailable");
}

#[test]
fn other_logs_fall_back_to_their_start() {
    assert_eq!(
        fingerprint_log("  Connection refused at 2024-01-15T14:32:01Z by peer\n"),
        "Connection refused at [TIMESTAMP] by peer"
    );
    assert_eq!(fingerprint_log(&"y".repeat(100)), "y".repeat(80));
    assert_eq!(fingerprint_log(""), "");
}

#[test]
fn case_is_folded_beyond_ascii() {
    assert_eq!(extract_panic("thread 'main' panic\u{212a}ed at 'boom'"), some("panic: boom"));
    assert_eq!(extract_python_error("\u{212a}eyError: x"), None);
    assert_eq!(fingerprint_log("\u{212a}eyError: x"), "Error: x");
    assert_eq!(
        extract_test_failure("a\u{17f}\u{17f}ert\u{131}on, AssertionError"),
        some("assert: a\u{17f}\u{17f}ert\u{131}on, AssertionError")
    );
    assert_eq!(extract_test_failure("aßertion, assertion error"), some("assert: aßertion, assertion error"));
}

#[test]
fn masking_twice_is_masking_once() {
    for log in [
        "at 14:32:01 and 2024-01-15 14:32:01+02:00, then 14:32:01.5x",
        "2024-01-15T14:32:01Z2024-01-15T14:32:01Z",
        "10:00:0110:00:02 10:00:03",
        "plain",
    ] {
        let once = strip_timestamps(log);
        assert_eq!(strip_timestamps(&once), once);
    }
}

#[test]
fn times_between_spaces_do_not_matter() {
    assert_eq!(strip_timestamps("lost at 14:32:01 again"), "lost at [TIME] again");
    assert_eq!(strip_timestamps("lost 2024-01-15 14:32:01 again"), "lost [TIMESTAMP] again");
    assert_eq!(
        fingerprint_log("connection lost at 14:32:01 again"),
        fingerprint_log("connection lost at 09:00:59 again")
    );
    assert_eq!(
        fingerprint_log("connection lost 2024-01-15 14:32:01 again"),
        fingerprint_log("connection lost 1999-12-31T00:00:00 again")
    );
}

#[test]
fn what_stands_before_a_pattern_does_not_matter() {
    assert_eq!(
        fingerprint_log("10:00:01 thread 'a' panicked at 'boom', x.rs"),
        fingerprint_log("10:00:02 thread 'b' panicked at 'boom', x.rs")
    );
    assert_eq!(
        fingerprint_log("10:00:01 run 1: expected 4 but got 5"),
        fingerprint_log("10:00:02 run 2: expected 4 but got 5")
    );
    assert_eq!(
        fingerprint_log("10:00:01 upstream 503 Service Unavailable now"),
        fingerprint_log("10:00:02 proxy said (503) Service Unavailable now or so")
    );
}

#[test]
fn near_duplicates_share_a_fingerprint() {
    assert_eq!(
        fingerprint_log("10:00:01 error[E0277]: at line 3"),
        fingerprint_log("10:05:09 error[E0277]: at line 90")
    );
    assert_eq!(fingerprint_log(" same "), fingerprint_log("same"));
}

#[test]
fn characters_that_grow_in_lower_case_do_no_harm() {
    assert_eq!(fingerprint_log("\u{130} KeyErrorñ: x"), "\u{130} KeyErrorñ: x");
    assert_eq!(fingerprint_log("\u{130}\u{130} KEYERROR: ñ"), "KeyError: ñ");
    assert_eq!(fingerprint_log("\u{130} thread Panicked at 'ñandú'"), "panic: ñandú");
}

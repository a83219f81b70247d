//! What a log says of Rust and TypeScript compiler errors and of JavaScript runtime errors.
use vstd::prelude::*;
use vstd::slice::slice_subrange;
use crate::casing::{all_digits, ascii_digit, is_digit, only_digits};
use crate::text::{
    begins_with, chars_of, concat, find, first_word, leading_word, names, pair, position_of, shown,
    starts_with, tail, text_of, trim, trim_start, trimmed, trimmed_start,
};
use crate::timestamps::{strip_timestamps, without_timestamps};

verus! {

/// The code of a Rust compiler error: the text between the first `error[` and the next `]`, where it
/// is an `E` and four digits or more.
pub open spec fn rust_error_code(log: Seq<char>) -> Option<Seq<char>> {
    match find(log, "error["@) {
        None => None,
        Some(i) => {
            let rest = log.skip(i + 6);
            match find(rest, "]"@) {
                None => None,
                Some(end) => {
                    let code = rest.take(end);
                    if code.len() >= 5 && code[0] == 'E' && all_digits(code.skip(1)) {
                        Some("error["@ + code + "]"@)
                    } else {
                        None
                    }
                },
            }
        },
    }
}

/// Extracts a Rust compiler error code such as `error[E0277]`.
pub fn extract_rust_error_code(log: &str) -> (code: Option<String>)
    ensures
        shown(code) == rust_error_code(log@),
{
    proof {
        reveal_strlit("error[");
    }
    let chars = chars_of(log);
    match position_of(chars.as_slice(), "error[") {
        None => None,
        Some(i) => {
            let rest = tail(chars.as_slice(), i + 6);
            match position_of(rest, "]") {
                None => None,
                Some(end) => {
                    let code = slice_subrange(rest, 0, end);
                    assert(code@ =~= rest@.take(end as int));
                    if code.len() >= 5 && code[0] == 'E' && only_digits(tail(code, 1)) {
                        Some(concat("error[", text_of(code).as_str(), "]"))
                    } else {
                        None
                    }
                },
            }
        },
    }
}

/// How many digits `s` starts with.
pub open spec fn digit_run(s: Seq<char>) -> nat
    decreases s.len(),
{
    if s.len() > 0 && is_digit(s[0]) {
        1 + digit_run(s.drop_first())
    } else {
        0
    }
}

/// `digit_run` on a slice.
fn count_digits(s: &[char]) -> (n: usize)
    ensures
        n == digit_run(s@),
        n <= s@.len(),
{
    let mut i: usize = 0;
    assert(s@.skip(0) =~= s@);
    while i < s.len() && ascii_digit(s[i])
        invariant
            i <= s@.len(),
            digit_run(s@) == i + digit_run(s@.skip(i as int)),
        decreases s@.len() - i,
    {
        assert(s@.skip(i as int).drop_first() =~= s@.skip(i + 1));
        i += 1;
    }
    i
}

/// The code of a TypeScript compiler error: the first `TS` of the log, where four digits or more
/// follow it.
pub open spec fn typescript_code(log: Seq<char>) -> Option<Seq<char>> {
    match find(log, "TS"@) {
        None => None,
        Some(i) => {
            let rest = log.skip(i + 2);
            let n = digit_run(rest);
            if n >= 4 {
                Some("TS"@ + rest.take(n as int))
            } else {
                None
            }
        },
    }
}

/// The JavaScript runtime errors, in the order in which they are looked for.
pub open spec fn javascript_errors() -> Seq<Seq<char>> {
    seq![
        "TypeError"@,
        "SyntaxError"@,
        "ReferenceError"@,
        "RangeError"@,
        "URIError"@,
        "EvalError"@,
    ]
}

/// An error named `kind` and the first word of its message, which may follow a colon.
pub open spec fn named_error(log: Seq<char>, kind: Seq<char>) -> Option<Seq<char>> {
    match find(log, kind) {
        None => None,
        Some(i) => {
            let after = trim_start(log.skip(i + kind.len()));
            let message = if starts_with(after, ":"@) {
                trim(after.skip(1))
            } else {
                after
            };
            Some(kind + ": "@ + without_timestamps(first_word(message)))
        },
    }
}

/// The first of the runtime errors from the `k`-th on that the log names.
pub open spec fn javascript_error_from(log: Seq<char>, k: int) -> Option<Seq<char>>
    decreases javascript_errors().len() - k,
{
    if k < 0 || k >= javascript_errors().len() {
        None
    } else {
        match named_error(log, javascript_errors()[k]) {
            Some(found) => Some(found),
            None => javascript_error_from(log, k + 1),
        }
    }
}

/// An error that has no name, as Node.js prints it.
pub open spec fn unnamed_error(log: Seq<char>) -> Option<Seq<char>> {
    match find(log, "Error:"@) {
        None => None,
        Some(i) => {
            let after = trim_start(log.skip(i + 6));
            Some("Error: "@ + without_timestamps(first_word(after)))
        },
    }
}

/// A TypeScript compiler error, else a JavaScript runtime error that has a name.
pub open spec fn script_error(log: Seq<char>) -> Option<Seq<char>> {
    match typescript_code(log) {
        Some(code) => Some(code),
        None => javascript_error_from(log, 0),
    }
}

/// A TypeScript compiler error, else a JavaScript runtime error, else an error without a name.
pub open spec fn ts_error(log: Seq<char>) -> Option<Seq<char>> {
    match script_error(log) {
        Some(found) => Some(found),
        None => unnamed_error(log),
    }
}

/// `named_error` on a slice.
fn extract_named_error(log: &[char], kind: &str) -> (found: Option<String>)
    ensures
        shown(found) == named_error(log@, kind@),
{
    match position_of(log, kind) {
        None => None,
        Some(i) => {
            let after = trimmed_start(tail(log, i + chars_of(kind).len()));
            let message = if begins_with(after, ":") {
                proof {
                    reveal_strlit(":");
                }
                trimmed(tail(after, 1))
            } else {
                after
            };
            let word = strip_timestamps(leading_word(message).as_str());
            Some(concat(kind, ": ", word.as_str()))
        },
    }
}

/// `javascript_errors` as a list.
fn javascript_error_list() -> (list: Vec<&'static str>)
    ensures
        names(list@) == javascript_errors(),
{
    let list = vec![
        "TypeError", "SyntaxError", "ReferenceError", "RangeError", "URIError", "EvalError",
    ];
    assert(names(list@) =~= javascript_errors());
    list
}

/// Extracts TypeScript compiler errors and JavaScript runtime errors that have a name.
pub fn extract_script_error(log: &str) -> (found: Option<String>)
    ensures
        shown(found) == script_error(log@),
{
    proof {
        reveal_strlit("TS");
    }
    let chars = chars_of(log);
    let s = chars.as_slice();
    if let Some(i) = position_of(s, "TS") {
        let rest = tail(s, i + 2);
        let n: usize = count_digits(rest);
        if n >= 4 {
            let code = slice_subrange(rest, 0, n);
            assert(code@ =~= rest@.take(n as int));
            return Some(pair("TS", text_of(code).as_str()));
        }
    }
    let kinds = javascript_error_list();
    let mut k: usize = 0;
    while k < kinds.len()
        invariant
            k <= kinds@.len(),
            s@ == log@,
            names(kinds@) == javascript_errors(),
            typescript_code(log@) is None,
            javascript_error_from(log@, 0) == javascript_error_from(log@, k as int),
        decreases kinds@.len() - k,
    {
        assert(names(kinds@)[k as int] == kinds@[k as int]@);
        assert(names(kinds@).len() == kinds@.len());
        let found = extract_named_error(s, kinds[k]);
        if found.is_some() {
            return found;
        }
        k += 1;
    }
    assert(names(kinds@).len() == kinds@.len());
    None
}

/// Extracts an error that has no name.
pub fn extract_unnamed_error(log: &str) -> (found: Option<String>)
    ensures
        shown(found) == unnamed_error(log@),
{
    proof {
        reveal_strlit("Error:");
    }
    let chars = chars_of(log);
    let s = chars.as_slice();
    match position_of(s, "Error:") {
        None => None,
        Some(i) => {
            let after = trimmed_start(tail(s, i + 6));
            let word = strip_timestamps(leading_word(after).as_str());
            Some(pair("Error: ", word.as_str()))
        },
    }
}

/// Extracts TypeScript compiler errors and JavaScript runtime errors, with a name or without.
pub fn extract_ts_error(log: &str) -> (found: Option<String>)
    ensures
        shown(found) == ts_error(log@),
{
    let found = extract_script_error(log);
    if found.is_some() {
        found
    } else {
        extract_unnamed_error(log)
    }
}

} // verus!

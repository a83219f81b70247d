//! Which logs share a fingerprint.
use vstd::prelude::*;
use crate::casing::{all_digits, is_digit, lowered};
use crate::compiler_errors::{digit_run, rust_error_code, script_error, typescript_code};
use crate::fingerprint::{fingerprint, no_error, no_failure, no_panic};
use crate::http_errors::{cleaned, http_error_from, is_status, trimmed_to, Core};
use crate::runtime_errors::{
    behind, go_panic, last_line, lemma_last_line, lemma_panicked, line_error, panic_found, python_error, rust_panic,
};
use crate::test_failures::says_expected;
use crate::text::{contains, find, first_of, first_words, join, lemma_find, stands_at, trim, words};
use crate::timestamps::without_timestamps;

verus! {

/// Logs that differ only in the white space around them share their fingerprint.
pub proof fn lemma_same_log_same_fingerprint(a: Seq<char>, b: Seq<char>)
    requires
        trim(a) == trim(b),
    ensures
        fingerprint(a) == fingerprint(b),
{
}

/// A mark whose last character does not recur in it is found behind any text that does not hold it.
proof fn lemma_find_mark(before: Seq<char>, mark: Seq<char>, after: Seq<char>)
    requires
        mark.len() > 0,
        forall|k: int| 0 <= k < mark.len() - 1 ==> #[trigger] mark[k] != mark.last(),
        !contains(before, mark),
    ensures
        find(before + mark + after, mark) == Some(before.len() as int),
{
    let text = before + mark + after;
    let n = before.len() as int;
    let m = mark.len() as int;
    lemma_find(text, mark);
    lemma_find(before, mark);
    assert(text.subrange(n, n + m) =~= mark);
    assert(stands_at(text, mark, n));
    assert forall|j: int| 0 <= j < n implies !stands_at(text, mark, j) by {
        if stands_at(text, mark, j) {
            let part = text.subrange(j, j + m);
            if j + m <= n {
                assert(before.subrange(j, j + m) =~= part);
                assert(stands_at(before, mark, j));
            } else {
                assert(part[m - 1] == mark.last());
                assert(text[j + m - 1] == mark[j + m - 1 - n]);
            }
        }
    }
}

/// A Rust error code is the fingerprint of any log that reports it first, whatever stands before and
/// behind it.
pub proof fn lemma_rust_code_is_fingerprint(
    log: Seq<char>,
    before: Seq<char>,
    code: Seq<char>,
    after: Seq<char>,
)
    requires
        trim(log) == before + "error["@ + code + "]"@ + after,
        !contains(before, "error["@),
        code.len() >= 5,
        code[0] == 'E',
        all_digits(code.skip(1)),
    ensures
        fingerprint(log) == "error["@ + code + "]"@,
{
    let text = trim(log);
    let close = "]"@;
    reveal_strlit("error[");
    reveal_strlit("]");
    lemma_find_mark(before, "error["@, code + close + after);
    assert(text =~= before + "error["@ + (code + close + after));
    let rest = text.skip(before.len() as int + 6);
    assert(rest =~= code + close + after);
    assert(!contains(code, close)) by {
        lemma_find(code, close);
        assert forall|j: int| !stands_at(code, close, j) by {
            if stands_at(code, close, j) {
                assert(code.subrange(j, j + 1)[0] == code[j]);
                if j > 0 {
                    assert(is_digit(code.skip(1)[j - 1]));
                }
            }
        }
    }
    lemma_find_mark(code, close, after);
    assert(rest.take(code.len() as int) =~= code);
}

/// A run of digits ends where something else follows.
proof fn lemma_digit_run(code: Seq<char>, after: Seq<char>)
    requires
        all_digits(code),
        after.len() > 0 ==> !is_digit(after[0]),
    ensures
        digit_run(code + after) == code.len(),
    decreases code.len(),
{
    if code.len() > 0 {
        assert(is_digit(code[0]));
        assert((code + after).drop_first() =~= code.drop_first() + after);
        assert forall|i: int| 0 <= i < code.drop_first().len() implies is_digit(
            #[trigger] code.drop_first()[i],
        ) by {
            assert(is_digit(code[i + 1]));
        }
        lemma_digit_run(code.drop_first(), after);
    } else {
        assert(code + after =~= after);
    }
}

/// A TypeScript error code is the fingerprint of any log that reports it first and no Rust error code,
/// whatever stands before and behind it.
pub proof fn lemma_typescript_code_is_fingerprint(
    log: Seq<char>,
    before: Seq<char>,
    code: Seq<char>,
    after: Seq<char>,
)
    requires
        trim(log) == before + "TS"@ + code + after,
        !contains(before, "TS"@),
        code.len() >= 4,
        all_digits(code),
        after.len() > 0 ==> !is_digit(after[0]),
        rust_error_code(trim(log)) is None,
    ensures
        fingerprint(log) == "TS"@ + code,
{
    let text = trim(log);
    let rest = code + after;
    reveal_strlit("TS");
    lemma_find_mark(before, "TS"@, rest);
    assert(text =~= before + "TS"@ + rest);
    assert(text.skip(before.len() as int + 2) =~= rest);
    lemma_digit_run(code, after);
    assert(rest.take(code.len() as int) =~= code);
    assert(typescript_code(text) == Some("TS"@ + code));
    assert(script_error(text) == Some("TS"@ + code));
}

/// The exception that the last line of a traceback reports is the fingerprint of the log, whatever the
/// lines before it report, unless the log holds a Rust, TypeScript or JavaScript error.
pub proof fn lemma_last_exception_is_fingerprint(log: Seq<char>, before: Seq<char>, line: Seq<char>)
    requires
        trim(log) == before + "\n"@ + line,
        !line.contains('\n'),
        line_error(line) is Some,
        rust_error_code(trim(log)) is None,
        script_error(trim(log)) is None,
    ensures
        fingerprint(log) == line_error(line)->0,
{
    let text = trim(log);
    let n = before.len() as int;
    reveal_strlit("\n");
    lemma_last_line(text);
    let start = last_line(text);
    assert(text[n] == '\n');
    if start > n + 1 {
        assert(text[start - 1] == line[start - 1 - (n + 1)]);
        assert(line.contains('\n'));
    }
    assert(text.skip(start) =~= line);
    assert(python_error(text) == line_error(line));
}

/// A Go panic is the fingerprint of any log that reports it and nothing more specific. What stands before
/// it, such as the time, does not matter, and times in what it says are masked.
pub proof fn lemma_panic_is_fingerprint(log: Seq<char>, before: Seq<char>, after: Seq<char>)
    requires
        trim(log) == before + "panic:"@ + after,
        !contains(lowered(before), "panic:"@),
        no_error(trim(log)),
    ensures
        fingerprint(log) == go_panic(trim(without_timestamps(after))),
{
    let text = trim(log);
    let mark = "panic:"@;
    reveal_strlit("panic:");
    lemma_find_lowered(before, mark, after);
    assert(text.skip(before.len() as int + 6) =~= after);
    assert(panic_found(text) == Some(go_panic(trim(without_timestamps(after)))));
}

/// A small mark whose last character does not recur in it is found in the lowered text.
proof fn lemma_find_lowered(before: Seq<char>, mark: Seq<char>, after: Seq<char>)
    requires
        mark.len() > 0,
        lowered(mark) =~= mark,
        forall|k: int| 0 <= k < mark.len() - 1 ==> #[trigger] mark[k] != mark.last(),
        !contains(lowered(before), mark),
    ensures
        find(lowered(before + mark + after), mark) == Some(before.len() as int),
{
    assert(lowered(before + mark + after) =~= lowered(before) + mark + lowered(after));
    lemma_find_mark(lowered(before), mark, lowered(after));
}

/// The same Go panic at two times has one fingerprint, where the log reports nothing more specific.
pub proof fn lemma_panics_share_fingerprint(
    a: Seq<char>,
    b: Seq<char>,
    before_a: Seq<char>,
    before_b: Seq<char>,
    after: Seq<char>,
)
    requires
        trim(a) == before_a + "panic:"@ + after,
        trim(b) == before_b + "panic:"@ + after,
        !contains(lowered(before_a), "panic:"@),
        !contains(lowered(before_b), "panic:"@),
        no_error(trim(a)),
        no_error(trim(b)),
    ensures
        fingerprint(a) == fingerprint(b),
{
    lemma_panic_is_fingerprint(a, before_a, after);
    lemma_panic_is_fingerprint(b, before_b, after);
}

/// Whether a text reports a Rust panic, and none of Go.
pub open spec fn panics_in_rust(text: Seq<char>) -> bool {
    let low = lowered(text);
    &&& !contains(low, "panic:"@)
    &&& !contains(low, "fatal error:"@)
    &&& contains(low, "panicked at"@) || contains(low, "panicked '"@)
}

/// A Rust panic is the fingerprint of any log that reports it and nothing more specific. It depends only on
/// what follows the first `panicked`: on what is quoted there, its times masked.
pub proof fn lemma_rust_panic_is_fingerprint(log: Seq<char>, before: Seq<char>, after: Seq<char>)
    requires
        trim(log) == before + "panicked"@ + after,
        !contains(lowered(before), "panicked"@),
        panics_in_rust(trim(log)),
        no_error(trim(log)),
    ensures
        fingerprint(log) == rust_panic(after.skip(1)),
{
    let text = trim(log);
    let mark = "panicked"@;
    reveal_strlit("panicked");
    lemma_find_lowered(before, mark, after);
    assert(find(lowered(text), mark) == Some(before.len() as int));
    lemma_panicked(lowered(text));
    assert(text.skip(before.len() as int + 9) =~= after.skip(1));
    assert(panic_found(text) == Some(rust_panic(after.skip(1))));
}

/// The same Rust panic at two times or in two threads has one fingerprint, where the log reports nothing
/// more specific.
pub proof fn lemma_rust_panics_share_fingerprint(
    a: Seq<char>,
    b: Seq<char>,
    before_a: Seq<char>,
    before_b: Seq<char>,
    after: Seq<char>,
)
    requires
        trim(a) == before_a + "panicked"@ + after,
        trim(b) == before_b + "panicked"@ + after,
        !contains(lowered(before_a), "panicked"@),
        !contains(lowered(before_b), "panicked"@),
        panics_in_rust(trim(a)),
        panics_in_rust(trim(b)),
        no_error(trim(a)),
        no_error(trim(b)),
    ensures
        fingerprint(a) == fingerprint(b),
{
    lemma_rust_panic_is_fingerprint(a, before_a, after);
    lemma_rust_panic_is_fingerprint(b, before_b, after);
}

/// A test's expectation is the fingerprint of any log that reports it and nothing more specific. It depends
/// only on what follows the first `expected`, its times masked.
pub proof fn lemma_expectation_is_fingerprint(log: Seq<char>, before: Seq<char>, after: Seq<char>)
    requires
        trim(log) == before + "expected"@ + after,
        !contains(lowered(before), "expected"@),
        says_expected(lowered(trim(log))),
        no_panic(trim(log)),
    ensures
        fingerprint(log) == "assert: expected "@ + first_words(trim(without_timestamps(after)), 6),
{
    let text = trim(log);
    let mark = "expected"@;
    reveal_strlit("expected");
    lemma_find_lowered(before, mark, after);
    assert(find(lowered(text), mark) == Some(before.len() as int));
    assert(text.skip(before.len() as int + 8) =~= after);
    assert(behind(text, mark) == trim(without_timestamps(after)));
}

/// The same expectation of two runs has one fingerprint, where the log reports nothing more specific.
pub proof fn lemma_expectations_share_fingerprint(
    a: Seq<char>,
    b: Seq<char>,
    before_a: Seq<char>,
    before_b: Seq<char>,
    after: Seq<char>,
)
    requires
        trim(a) == before_a + "expected"@ + after,
        trim(b) == before_b + "expected"@ + after,
        !contains(lowered(before_a), "expected"@),
        !contains(lowered(before_b), "expected"@),
        says_expected(lowered(trim(a))),
        says_expected(lowered(trim(b))),
        no_panic(trim(a)),
        no_panic(trim(b)),
    ensures
        fingerprint(a) == fingerprint(b),
{
    lemma_expectation_is_fingerprint(a, before_a, after);
    lemma_expectation_is_fingerprint(b, before_b, after);
}

/// Whether the `i`-th of `parts` is the first that is a status but for what surrounds its digits.
pub open spec fn is_first_status(parts: Seq<Seq<char>>, i: int) -> bool {
    &&& 0 <= i < parts.len()
    &&& is_status(trimmed_to(parts[i], Core::Digits))
    &&& forall|j: int| 0 <= j < i ==> !is_status(#[trigger] trimmed_to(parts[j], Core::Digits))
}

/// The first status among words is found from any word before it on.
proof fn lemma_first_status(parts: Seq<Seq<char>>, k: int, i: int)
    requires
        is_first_status(parts, i),
        0 <= k <= i,
    ensures
        http_error_from(parts, k) == http_error_from(parts, i),
    decreases i - k,
{
    if k < i {
        assert(!is_status(trimmed_to(parts[k], Core::Digits)));
        lemma_first_status(parts, k + 1, i);
    }
}

/// An HTTP error is the fingerprint of any log that reports it and nothing more specific. It depends only
/// on the first status and on the three words behind it.
pub proof fn lemma_status_is_fingerprint(log: Seq<char>, i: int)
    requires
        is_first_status(words(trim(log)), i),
        no_failure(trim(log)),
    ensures
        fingerprint(log) == "HTTP "@ + trimmed_to(words(trim(log))[i], Core::Digits) + " "@
            + without_timestamps(
            join(cleaned(first_of(words(trim(log)).skip(i + 1), 3)), " "@),
        ),
{
    lemma_first_status(words(trim(log)), 0, i);
}

/// Logs that report the same status with the same three words behind it share their fingerprint, where
/// they report nothing more specific.
pub proof fn lemma_statuses_share_fingerprint(a: Seq<char>, b: Seq<char>, i: int, j: int)
    requires
        is_first_status(words(trim(a)), i),
        is_first_status(words(trim(b)), j),
        trimmed_to(words(trim(a))[i], Core::Digits) == trimmed_to(words(trim(b))[j], Core::Digits),
        first_of(words(trim(a)).skip(i + 1), 3) == first_of(words(trim(b)).skip(j + 1), 3),
        no_failure(trim(a)),
        no_failure(trim(b)),
    ensures
        fingerprint(a) == fingerprint(b),
{
    lemma_status_is_fingerprint(a, i);
    lemma_status_is_fingerprint(b, j);
}

} // verus!

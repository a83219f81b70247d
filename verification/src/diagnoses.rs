//! What a log must say to be recognised, and what it is then called.
use vstd::prelude::*;
use crate::casing::{all_digits, alphanumeric, folded, is_digit, lowered, raised};
use crate::compiler_errors::{
    digit_run, javascript_error_from, javascript_errors, named_error, rust_error_code, script_error, ts_error,
    typescript_code, unnamed_error,
};
use crate::fingerprint::{fingerprint, no_error, no_pattern};
use crate::http_errors::{
    cleaned, core_end, core_start, http_error, http_error_from, is_status, trimmed_to, Core,
};
use crate::runtime_errors::{
    behind, go_panic, last_line, lemma_last_line, lemma_panicked, line_error, line_error_from,
    panic_found, python_error, python_exception, python_exceptions, rust_panic,
};
use crate::test_failures::{assertion_at, test_failure};
use crate::text::{
    contains, find, first_word, first_words, is_space, lemma_find, prefix, stands_at, starts_with,
    trim, trim_end, trim_start, words,
};
use crate::text_laws::{
    is_blank, is_part, lemma_containing, lemma_one_word, lemma_trim, lemma_trim_start, lemma_words_parted,
};
use crate::timestamps::{without_timestamps, DATE_TIME, TIME_OF_DAY};

verus! {

/// Whether `i` is the first place at which a mark stands in a text.
pub open spec fn is_first_at(text: Seq<char>, mark: Seq<char>, i: int) -> bool {
    stands_at(text, mark, i) && forall|j: int| 0 <= j < i ==> !#[trigger] stands_at(text, mark, j)
}

/// Searching gives the first place.
proof fn lemma_first_at(text: Seq<char>, mark: Seq<char>, i: int)
    requires
        is_first_at(text, mark, i),
    ensures
        find(text, mark) == Some(i),
{
    lemma_find(text, mark);
    let k = find(text, mark)->0;
    if k < i {
        assert(!stands_at(text, mark, k));
    }
}

/// White space at the start is trimmed away up to what is none.
proof fn lemma_gap(gap: Seq<char>, rest: Seq<char>)
    requires
        is_blank(gap),
        rest.len() > 0,
        !is_space(rest[0]),
    ensures
        trim_start(gap + rest) == rest,
    decreases gap.len(),
{
    let s = gap + rest;
    if gap.len() == 0 {
        assert(s =~= rest);
    } else {
        assert(is_space(gap[0]));
        assert(s[0] == gap[0]);
        assert(s.drop_first() =~= gap.drop_first() + rest);
        assert forall|i: int| 0 <= i < gap.drop_first().len() implies is_space(
            #[trigger] gap.drop_first()[i],
        ) by {
            assert(is_space(gap[i + 1]));
        }
        lemma_gap(gap.drop_first(), rest);
    }
}

/// White space at the end parts no words.
proof fn lemma_words_of_trimmed(s: Seq<char>)
    ensures
        words(trim_end(s)) == words(s),
    decreases s.len(),
{
    if s.len() > 0 && is_space(s.last()) {
        lemma_words_of_trimmed(s.drop_last());
    }
}

/// Whether `word` is a word that `rest` can follow: it has no white space, and `rest` starts with some or is
/// empty.
pub open spec fn is_word_before(word: Seq<char>, rest: Seq<char>) -> bool {
    &&& word.len() > 0
    &&& forall|i: int| 0 <= i < word.len() ==> !is_space(#[trigger] word[i])
    &&& rest.len() == 0 || is_space(rest[0])
}

/// The first word of a text is the one that it starts with but for white space.
pub proof fn lemma_first_word(gap: Seq<char>, word: Seq<char>, rest: Seq<char>)
    requires
        is_blank(gap),
        is_word_before(word, rest),
    ensures
        first_word(trim_start(gap + word + rest)) == word,
        first_word(trim(gap + word + rest)) == word,
{
    let text = word + rest;
    assert(!is_space(word[0]));
    assert(text[0] == word[0]);
    assert(gap + word + rest =~= gap + text);
    lemma_gap(gap, text);
    lemma_words_of_trimmed(text);
    lemma_one_word(word);
    if rest.len() == 0 {
        assert(text =~= word);
    } else {
        lemma_words_parted(word, rest[0], rest.skip(1));
        assert(text =~= word + seq![rest[0]] + rest.skip(1));
    }
    assert(words(text)[0] == word);
}

/// A Rust error code that is recognised stands in the log, and is an `E` with four digits or more in
/// brackets.
pub proof fn lemma_rust_code_is_there(log: Seq<char>)
    requires
        rust_error_code(log) is Some,
    ensures
        is_part(rust_error_code(log)->0, log),
        exists|code: Seq<char>|
            rust_error_code(log)->0 == #[trigger] ("error["@ + code + "]"@) && code.len() >= 5 && code[0]
                == 'E' && forall|i: int| 1 <= i < code.len() ==> '0' <= #[trigger] code[i] <= '9',
{
    reveal_strlit("error[");
    reveal_strlit("]");
    lemma_find(log, "error["@);
    let i = find(log, "error["@)->0;
    let rest = log.skip(i + 6);
    lemma_find(rest, "]"@);
    let end = find(rest, "]"@)->0;
    let code = rest.take(end);
    assert(log.subrange(i, i + 6) =~= "error["@);
    assert(rest.subrange(end, end + 1) =~= "]"@);
    assert(rest[end] == "]"@[0]) by {
        assert(rest.subrange(end, end + 1)[0] == rest[end]);
    }
    assert forall|j: int| 1 <= j < code.len() implies '0' <= #[trigger] code[j] <= '9' by {
        assert(is_digit(code.skip(1)[j - 1]));
    }
    let found = "error["@ + code + "]"@;
    assert(log.take(i) + found + rest.skip(end + 1) =~= log) by {
        assert forall|j: int| 0 <= j < 6 implies #[trigger] log[i + j] == "error["@[j] by {
            assert(log.subrange(i, i + 6)[j] == log[i + j]);
        }
    }
}

/// Whether a text is an `E` with four digits or more.
pub open spec fn is_rust_code(code: Seq<char>) -> bool {
    &&& code.len() >= 5
    &&& code[0] == 'E'
    &&& forall|i: int| 1 <= i < code.len() ==> '0' <= #[trigger] code[i] <= '9'
}

/// Only the first bracket that an error opens counts: a Rust error code is recognised exactly where one
/// stands in it.
pub proof fn lemma_first_bracket_counts(log: Seq<char>, i: int)
    requires
        is_first_at(log, "error["@, i),
    ensures
        rust_error_code(log) is Some ==> stands_at(log, rust_error_code(log)->0, i),
        forall|code: Seq<char>|
            is_rust_code(code) && #[trigger] stands_at(log, "error["@ + code + "]"@, i)
                ==> rust_error_code(log) == Some("error["@ + code + "]"@),
{
    reveal_strlit("error[");
    reveal_strlit("]");
    lemma_first_at(log, "error["@, i);
    let rest = log.skip(i + 6);
    lemma_find(rest, "]"@);
    if rust_error_code(log) is Some {
        let end = find(rest, "]"@)->0;
        let code = rest.take(end);
        let found = "error["@ + code + "]"@;
        assert(rest.subrange(end, end + 1)[0] == rest[end]);
        assert(log.subrange(i, i + found.len()) =~= found) by {
            assert forall|j: int| 0 <= j < 6 implies #[trigger] log[i + j] == "error["@[j] by {
                assert(log.subrange(i, i + 6)[j] == log[i + j]);
            }
        }
    }
    assert forall|code: Seq<char>|
        is_rust_code(code) && #[trigger] stands_at(log, "error["@ + code + "]"@, i) implies rust_error_code(
        log,
    ) == Some("error["@ + code + "]"@) by {
        let found = "error["@ + code + "]"@;
        let n = code.len() as int;
        assert forall|j: int| 0 <= j < found.len() implies #[trigger] log[i + j] == found[j] by {
            assert(log.subrange(i, i + found.len())[j] == log[i + j]);
        }
        assert forall|j: int| 0 <= j < n implies #[trigger] rest[j] == code[j] by {
            assert(log[i + (6 + j)] == found[6 + j]);
        }
        assert(log[i + (6 + n)] == found[6 + n]);
        assert(rest[n] == ']');
        assert(rest.subrange(n, n + 1) =~= "]"@);
        assert forall|j: int| 0 <= j < n implies !#[trigger] stands_at(rest, "]"@, j) by {
            if stands_at(rest, "]"@, j) {
                assert(rest.subrange(j, j + 1)[0] == rest[j]);
                assert(rest[j] == code[j]);
                if j > 0 {
                    assert('0' <= code[j] <= '9');
                }
            }
        }
        lemma_first_at(rest, "]"@, n);
        assert(rest.take(n) =~= code);
        assert forall|j: int| 0 <= j < code.skip(1).len() implies is_digit(
            #[trigger] code.skip(1)[j],
        ) by {
            assert('0' <= code[j + 1] <= '9');
        }
    }
}

/// Only the first `TS` counts: a TypeScript error code is recognised exactly where four digits follow it.
pub proof fn lemma_first_ts_counts(log: Seq<char>, i: int)
    requires
        is_first_at(log, "TS"@, i),
    ensures
        typescript_code(log) is Some <==> i + 6 <= log.len() && forall|j: int|
            i + 2 <= j < i + 6 ==> '0' <= #[trigger] log[j] <= '9',
        typescript_code(log) is Some ==> stands_at(log, typescript_code(log)->0, i),
{
    reveal_strlit("TS");
    lemma_first_at(log, "TS"@, i);
    let rest = log.skip(i + 2);
    let n = digit_run(rest) as int;
    lemma_digits_run(rest);
    lemma_digits_run_ends(rest);
    assert forall|j: int| 0 <= j < 2 implies #[trigger] log[i + j] == "TS"@[j] by {
        assert(log.subrange(i, i + 2)[j] == log[i + j]);
    }
    if n >= 4 {
        let found = "TS"@ + rest.take(n);
        assert(log.subrange(i, i + found.len()) =~= found);
        assert forall|j: int| i + 2 <= j < i + 6 implies '0' <= #[trigger] log[j] <= '9' by {
            assert(is_digit(rest.take(n)[j - i - 2]));
        }
    } else if i + 6 <= log.len() && forall|j: int|
        i + 2 <= j < i + 6 ==> '0' <= #[trigger] log[j] <= '9' {
        assert('0' <= log[i + 2 + n] <= '9');
        assert(rest[n] == log[i + 2 + n]);
    }
}

/// A run of digits ends at the first character that is none.
proof fn lemma_digits_run_ends(s: Seq<char>)
    ensures
        digit_run(s) < s.len() ==> !is_digit(s[digit_run(s) as int]),
    decreases s.len(),
{
    if s.len() > 0 && is_digit(s[0]) {
        lemma_digits_run_ends(s.drop_first());
    }
}

/// A run of digits is made of digits.
proof fn lemma_digits_run(s: Seq<char>)
    ensures
        digit_run(s) <= s.len(),
        all_digits(s.take(digit_run(s) as int)),
    decreases s.len(),
{
    if s.len() > 0 && is_digit(s[0]) {
        let rest = s.drop_first();
        lemma_digits_run(rest);
        let n = digit_run(s) as int;
        assert forall|i: int| 0 <= i < n implies is_digit(#[trigger] s.take(n)[i]) by {
            if i > 0 {
                assert(is_digit(rest.take(n - 1)[i - 1]));
            }
        }
    }
}

/// A TypeScript error code that is recognised stands in the log, and is `TS` with four digits or more.
pub proof fn lemma_typescript_code_is_there(log: Seq<char>)
    requires
        typescript_code(log) is Some,
    ensures
        is_part(typescript_code(log)->0, log),
        exists|code: Seq<char>|
            typescript_code(log)->0 == #[trigger] ("TS"@ + code) && code.len() >= 4 && forall|i: int|
                0 <= i < code.len() ==> '0' <= #[trigger] code[i] <= '9',
{
    reveal_strlit("TS");
    lemma_find(log, "TS"@);
    let i = find(log, "TS"@)->0;
    let rest = log.skip(i + 2);
    let n = digit_run(rest) as int;
    let code = rest.take(n);
    lemma_digits_run(rest);
    assert forall|j: int| 0 <= j < code.len() implies '0' <= #[trigger] code[j] <= '9' by {
        assert(is_digit(code[j]));
    }
    let found = "TS"@ + code;
    assert(log.take(i) + found + rest.skip(n) =~= log) by {
        assert forall|j: int| 0 <= j < 2 implies #[trigger] log[i + j] == "TS"@[j] by {
            assert(log.subrange(i, i + 2)[j] == log[i + j]);
        }
    }
}

/// The `k`-th of the six JavaScript errors, those that count first first.
pub open spec fn script_name(k: int) -> Seq<char> {
    if k == 0 {
        "TypeError"@
    } else if k == 1 {
        "SyntaxError"@
    } else if k == 2 {
        "ReferenceError"@
    } else if k == 3 {
        "RangeError"@
    } else if k == 4 {
        "URIError"@
    } else {
        "EvalError"@
    }
}

/// The errors that are looked for are the six.
proof fn lemma_script_names(k: int)
    requires
        0 <= k < 6,
    ensures
        javascript_errors().len() == 6,
        javascript_errors()[k] == script_name(k),
{
}

/// The error that is found from the `k`-th on is the first that stands in the log.
proof fn lemma_script_from(log: Seq<char>, k: int)
    requires
        0 <= k <= 6,
    ensures
        match javascript_error_from(log, k) {
            None => forall|m: int| k <= m < 6 ==> !is_part(#[trigger] script_name(m), log),
            Some(found) => exists|n: int|
                k <= n < 6 && is_part(#[trigger] script_name(n), log) && named_error(log, script_name(n))
                    == Some(found) && forall|m: int|
                    k <= m < n ==> !is_part(#[trigger] script_name(m), log),
        },
    decreases 6 - k,
{
    lemma_script_names(0);
    if k < 6 {
        lemma_script_names(k);
        lemma_containing(log, script_name(k));
        if named_error(log, script_name(k)) is None {
            lemma_script_from(log, k + 1);
            if javascript_error_from(log, k + 1) is Some {
                let found = javascript_error_from(log, k + 1)->0;
                let n = choose|n: int|
                    k + 1 <= n < 6 && is_part(#[trigger] script_name(n), log) && named_error(
                        log,
                        script_name(n),
                    ) == Some(found) && forall|m: int|
                        k + 1 <= m < n ==> !is_part(#[trigger] script_name(m), log);
                assert forall|m: int| k <= m < n implies !is_part(#[trigger] script_name(m), log) by {}
            }
        } else {
            assert(is_part(script_name(k), log));
        }
    }
}

/// A script error is recognised exactly where the log has a TypeScript error code first or names one of
/// the six errors.
pub proof fn lemma_script_error_is_there(log: Seq<char>)
    ensures
        script_error(log) is Some <==> typescript_code(log) is Some || exists|k: int|
            0 <= k < 6 && is_part(#[trigger] script_name(k), log),
{
    lemma_script_from(log, 0);
}

/// A JavaScript error that a log names is its fingerprint, with the first word of its message, whatever
/// stands before its name and behind that word. It has to be the first of the six that the log names, and
/// no compiler error goes before it.
pub proof fn lemma_named_error_is_fingerprint(
    log: Seq<char>,
    k: int,
    i: int,
    colon: Seq<char>,
    gap: Seq<char>,
    word: Seq<char>,
    rest: Seq<char>,
)
    requires
        0 <= k < 6,
        is_first_at(trim(log), script_name(k), i),
        forall|m: int| 0 <= m < k ==> !is_part(#[trigger] script_name(m), trim(log)),
        rust_error_code(trim(log)) is None,
        typescript_code(trim(log)) is None,
        is_blank(colon),
        is_blank(gap),
        is_word_before(word, rest),
        ({
            let behind = trim(log).skip(i + script_name(k).len());
            behind == colon + ":"@ + (gap + word + rest) || (behind == gap + word + rest && word[0] != ':')
        }),
    ensures
        fingerprint(log) == script_name(k) + ": "@ + without_timestamps(word),
{
    let text = trim(log);
    let name = script_name(k);
    let after = text.skip(i + name.len());
    let message = gap + word + rest;
    reveal_strlit(":");
    lemma_first_at(text, name, i);
    lemma_first_word(gap, word, rest);
    if after == colon + ":"@ + message {
        let marked = ":"@ + message;
        assert(after =~= colon + marked);
        assert(!is_space(marked[0]));
        lemma_gap(colon, marked);
        assert(marked.subrange(0, 1) =~= ":"@);
        assert(marked.skip(1) =~= message);
    } else {
        let start = word + rest;
        assert(start[0] == word[0]);
        assert(message =~= gap + start);
        lemma_gap(gap, start);
        assert(trim_start(after) == start);
        assert(start.subrange(0, 1)[0] == word[0]);
        assert(!starts_with(start, ":"@));
    }
    assert(named_error(text, name) == Some(name + ": "@ + without_timestamps(word)));
    lemma_script_from(text, 0);
    assert(is_part(name, text)) by {
        lemma_containing(text, name);
    }
    let n = choose|n: int|
        0 <= n < 6 && is_part(#[trigger] script_name(n), text) && named_error(text, script_name(n))
            == javascript_error_from(text, 0) && forall|m: int|
            0 <= m < n ==> !is_part(#[trigger] script_name(m), text);
    if k < n {
        assert(!is_part(script_name(k), text));
    }
    assert(n == k);
}

/// An error without a name is the fingerprint of a log that reports it and nothing more specific, with the
/// first word of its message.
pub proof fn lemma_unnamed_error_is_fingerprint(
    log: Seq<char>,
    i: int,
    gap: Seq<char>,
    word: Seq<char>,
    rest: Seq<char>,
)
    requires
        is_first_at(trim(log), "Error:"@, i),
        trim(log).skip(i + 6) == gap + word + rest,
        is_blank(gap),
        is_word_before(word, rest),
        rust_error_code(trim(log)) is None,
        script_error(trim(log)) is None,
        python_error(trim(log)) is None,
    ensures
        fingerprint(log) == "Error: "@ + without_timestamps(word),
{
    lemma_first_at(trim(log), "Error:"@, i);
    lemma_first_word(gap, word, rest);
}

/// An error whose message is missing is called by its name alone.
pub proof fn lemma_error_without_message(log: Seq<char>, k: int, i: int, gap: Seq<char>)
    requires
        0 <= k < 6,
        is_first_at(log, script_name(k), i),
        is_blank(gap),
        log.skip(i + script_name(k).len()) == gap || log.skip(i + script_name(k).len()) == ":"@ + gap,
    ensures
        named_error(log, script_name(k)) == Some(
            script_name(k) + ": "@ + without_timestamps(Seq::<char>::empty()),
        ),
{
    let after = log.skip(i + script_name(k).len());
    reveal_strlit(":");
    lemma_first_at(log, script_name(k), i);
    lemma_trim(gap);
    lemma_blank_start(gap);
    let nothing = Seq::<char>::empty();
    if after == ":"@ + gap {
        lemma_gap(nothing, after);
        assert(nothing + after =~= after);
        assert(after.subrange(0, 1) =~= ":"@);
        assert(after.skip(1) =~= gap);
        assert(trim(gap) =~= nothing);
    } else {
        assert(trim_start(after) =~= nothing);
        assert(!starts_with(nothing, ":"@));
    }
    assert(words(nothing).len() == 0);
    assert(first_word(nothing) =~= nothing);
}

/// Of white space nothing is left at the start.
proof fn lemma_blank_start(gap: Seq<char>)
    requires
        is_blank(gap),
    ensures
        trim_start(gap).len() == 0,
{
    let n = lemma_trim_start(gap);
    if n < gap.len() {
        assert(is_space(gap[n]));
    }
}

/// An error that a script reports goes before one without a name, and that before none.
pub proof fn lemma_ts_error(log: Seq<char>)
    ensures
        script_error(log) is Some ==> ts_error(log) == script_error(log),
        script_error(log) is None && is_part("Error:"@, log) ==> ts_error(log) is Some && ts_error(log)
            == unnamed_error(log),
        script_error(log) is None && !is_part("Error:"@, log) ==> ts_error(log) is None,
{
    lemma_containing(log, "Error:"@);
}

/// An error without a name is recognised exactly where the log says `Error:`.
pub proof fn lemma_unnamed_error_is_there(log: Seq<char>)
    ensures
        unnamed_error(log) is Some <==> is_part("Error:"@, log),
{
    lemma_containing(log, "Error:"@);
}

/// The `k`-th of the Python exceptions, those that count first first.
pub open spec fn python_name(k: int) -> Seq<char> {
    if k == 0 {
        "ValueError"@
    } else if k == 1 {
        "TypeError"@
    } else if k == 2 {
        "KeyError"@
    } else if k == 3 {
        "IndexError"@
    } else if k == 4 {
        "AttributeError"@
    } else if k == 5 {
        "ImportError"@
    } else if k == 6 {
        "ModuleNotFoundError"@
    } else if k == 7 {
        "FileNotFoundError"@
    } else if k == 8 {
        "OSError"@
    } else if k == 9 {
        "RuntimeError"@
    } else if k == 10 {
        "RecursionError"@
    } else if k == 11 {
        "StopIteration"@
    } else if k == 12 {
        "AssertionError"@
    } else if k == 13 {
        "OverflowError"@
    } else if k == 14 {
        "ZeroDivisionError"@
    } else if k == 15 {
        "UnboundLocalError"@
    } else if k == 16 {
        "NameError"@
    } else if k == 17 {
        "SyntaxError"@
    } else if k == 18 {
        "IndentationError"@
    } else if k == 19 {
        "TabError"@
    } else if k == 20 {
        "SystemExit"@
    } else if k == 21 {
        "KeyboardInterrupt"@
    } else if k == 22 {
        "ConnectionError"@
    } else {
        "TimeoutError"@
    }
}

/// The exceptions that are looked for are those.
proof fn lemma_python_names(k: int)
    requires
        0 <= k < 24,
    ensures
        python_exceptions().len() == 24,
        python_exceptions()[k] == python_name(k),
{
}

/// The exception that is found from the `k`-th on is the first that the line reports.
proof fn lemma_line_from(line: Seq<char>, k: int)
    requires
        0 <= k <= 24,
    ensures
        match line_error_from(line, k) {
            None => forall|m: int|
                k <= m < 24 ==> python_exception(line, #[trigger] python_name(m)) is None,
            Some(found) => exists|n: int|
                k <= n < 24 && python_exception(line, #[trigger] python_name(n)) == Some(found)
                    && forall|m: int|
                    k <= m < n ==> python_exception(line, #[trigger] python_name(m)) is None,
        },
    decreases 24 - k,
{
    lemma_python_names(0);
    if k < 24 {
        lemma_python_names(k);
        if python_exception(line, python_name(k)) is None {
            lemma_line_from(line, k + 1);
            if line_error_from(line, k + 1) is Some {
                let found = line_error_from(line, k + 1)->0;
                let n = choose|n: int|
                    k + 1 <= n < 24 && python_exception(line, #[trigger] python_name(n)) == Some(found)
                        && forall|m: int|
                        k + 1 <= m < n ==> python_exception(line, #[trigger] python_name(m)) is None;
                assert forall|m: int| k <= m < n implies python_exception(
                    line,
                    #[trigger] python_name(m),
                ) is None by {}
            }
        } else {
            assert(python_exception(line, python_name(k)) is Some);
        }
    }
}

/// Whether a line reports the exception `name`: a colon follows where the name first stands in the line,
/// but for the case of ASCII letters and white space before the colon.
pub open spec fn reports(line: Seq<char>, name: Seq<char>, i: int, colon: Seq<char>, message: Seq<char>) -> bool {
    &&& is_first_at(folded(line), folded(name), i)
    &&& is_blank(colon)
    &&& line.skip(i + name.len()) == colon + ":"@ + message
}

/// What a line reports is called by the exception and the first four words of its message.
proof fn lemma_reported(line: Seq<char>, name: Seq<char>, i: int, colon: Seq<char>, message: Seq<char>)
    requires
        reports(line, name, i, colon, message),
    ensures
        python_exception(line, name) == Some(
            name + ": "@ + first_words(without_timestamps(trim(message)), 4),
        ),
{
    let marked = ":"@ + message;
    reveal_strlit(":");
    lemma_first_at(folded(line), folded(name), i);
    assert(line.skip(i + name.len()) =~= colon + marked);
    assert(!is_space(marked[0]));
    lemma_gap(colon, marked);
    assert(marked.subrange(0, 1) =~= ":"@);
    assert(marked.skip(1) =~= message);
}

/// What is found of an exception is reported.
proof fn lemma_found_is_reported(line: Seq<char>, name: Seq<char>) -> (parts: (int, Seq<char>, Seq<char>))
    requires
        python_exception(line, name) is Some,
    ensures
        reports(line, name, parts.0, parts.1, parts.2),
{
    reveal_strlit(":");
    lemma_find(folded(line), folded(name));
    let i = find(folded(line), folded(name))->0;
    let rest = line.skip(i + name.len());
    let n = lemma_trim_start(rest);
    let after = rest.skip(n);
    let colon = rest.take(n);
    let message = after.skip(1);
    assert(after.subrange(0, 1)[0] == after[0]);
    assert(after =~= ":"@ + message);
    assert(rest =~= colon + ":"@ + message);
    (i, colon, message)
}

/// A line that reports an exception is called by the exception and the first four words of its message,
/// whatever stands before the name. Of several it is the first in order.
pub proof fn lemma_exception_of_line(
    line: Seq<char>,
    k: int,
    i: int,
    colon: Seq<char>,
    message: Seq<char>,
)
    requires
        0 <= k < 24,
        reports(line, python_name(k), i, colon, message),
        forall|m: int, j: int, c: Seq<char>, t: Seq<char>|
            0 <= m < k ==> !#[trigger] reports(line, python_name(m), j, c, t),
    ensures
        line_error(line) == Some(
            python_name(k) + ": "@ + first_words(without_timestamps(trim(message)), 4),
        ),
{
    lemma_reported(line, python_name(k), i, colon, message);
    assert forall|m: int| 0 <= m < k implies python_exception(
        line,
        #[trigger] python_name(m),
    ) is None by {
        if python_exception(line, python_name(m)) is Some {
            let parts = lemma_found_is_reported(line, python_name(m));
            assert(reports(line, python_name(m), parts.0, parts.1, parts.2));
        }
    }
    lemma_line_from(line, 0);
    let n = choose|n: int|
        0 <= n < 24 && python_exception(line, #[trigger] python_name(n)) == line_error(line)
            && forall|m: int| 0 <= m < n ==> python_exception(line, #[trigger] python_name(m)) is None;
    if k < n {
        assert(python_exception(line, python_name(k)) is None);
    }
    assert(n == k);
}

/// A line that reports no exception is called nothing.
pub proof fn lemma_line_without_exception(line: Seq<char>)
    requires
        forall|m: int, j: int, c: Seq<char>, t: Seq<char>|
            0 <= m < 24 ==> !#[trigger] reports(line, python_name(m), j, c, t),
    ensures
        line_error(line) is None,
{
    lemma_line_from(line, 0);
    if line_error(line) is Some {
        let found = line_error(line)->0;
        let n = choose|n: int|
            0 <= n < 24 && python_exception(line, #[trigger] python_name(n)) == Some(found);
        let parts = lemma_found_is_reported(line, python_name(n));
        assert(reports(line, python_name(n), parts.0, parts.1, parts.2));
    }
}

/// An exception that is recognised is one of those that are looked for, with what is said of it, and its
/// name stands in the line but for the case of ASCII letters.
pub proof fn lemma_exception_is_there(line: Seq<char>)
    requires
        line_error(line) is Some,
    ensures
        exists|k: int|
            {
                &&& 0 <= k < 24
                &&& is_part(folded(#[trigger] python_name(k)), folded(line))
                &&& (python_name(k) + ": "@).is_prefix_of(line_error(line)->0)
            },
{
    lemma_line_from(line, 0);
    let found = line_error(line)->0;
    let n = choose|n: int|
        0 <= n < 24 && python_exception(line, #[trigger] python_name(n)) == Some(found);
    lemma_containing(folded(line), folded(python_name(n)));
    let start = python_name(n) + ": "@;
    assert(start =~= found.take(start.len() as int));
}

/// A log reports a Python exception exactly where one of its lines does: the line stands between line
/// breaks or the ends of the log.
pub proof fn lemma_exception_is_on_a_line(log: Seq<char>)
    ensures
        python_error(log) is Some ==> exists|a: int, b: int|
            {
                &&& 0 <= a <= b <= log.len()
                &&& a == 0 || log[a - 1] == '\n'
                &&& b == log.len() || log[b] == '\n'
                &&& #[trigger] line_error(log.subrange(a, b)) == python_error(log)
            },
    decreases log.len(),
{
    lemma_last_line(log);
    let start = last_line(log);
    let line = log.skip(start);
    if line_error(line) is Some {
        assert(log.subrange(start, log.len() as int) =~= line);
        assert(line_error(log.subrange(start, log.len() as int)) == python_error(log));
    } else if start > 0 {
        let rest = log.take(start - 1);
        lemma_exception_is_on_a_line(rest);
        if python_error(log) is Some {
            let (a, b) = choose|a: int, b: int|
                {
                    &&& 0 <= a <= b <= rest.len()
                    &&& a == 0 || rest[a - 1] == '\n'
                    &&& b == rest.len() || rest[b] == '\n'
                    &&& #[trigger] line_error(rest.subrange(a, b)) == python_error(rest)
                };
            assert(log.subrange(a, b) =~= rest.subrange(a, b));
            assert(line_error(log.subrange(a, b)) == python_error(log));
        }
    }
}

/// A log reports what its last line reports and, where that reports nothing, what the lines before it do.
pub proof fn lemma_exception_of_lines(before: Seq<char>, line: Seq<char>)
    requires
        !line.contains('\n'),
    ensures
        python_error(line) == line_error(line),
        line_error(line) is Some ==> python_error(before + "\n"@ + line) == line_error(line),
        line_error(line) is None ==> python_error(before + "\n"@ + line) == python_error(before),
{
    reveal_strlit("\n");
    let log = before + "\n"@ + line;
    let n = before.len() as int;
    lemma_last_line(log);
    let start = last_line(log);
    assert(log[n] == '\n');
    if start > n + 1 {
        assert(log[start - 1] == line[start - 1 - (n + 1)]);
        assert(line.contains('\n'));
    }
    assert(start == n + 1);
    assert(log.skip(start) =~= line);
    assert(log.take(start - 1) =~= before);
    lemma_last_line(line);
    if last_line(line) > 0 {
        assert(line.contains('\n'));
    }
    assert(line.skip(0) =~= line);
}

/// What a Go panic is called, whatever else its message says.
pub proof fn lemma_go_panics(message: Seq<char>)
    ensures
        is_part("nil pointer"@, message) ==> go_panic(message) == "panic: nil pointer dereference"@,
        !is_part("nil pointer"@, message) ==> {
            &&& is_part("index out of range"@, message) ==> go_panic(message)
                == "panic: index out of range"@
            &&& !is_part("index out of range"@, message) ==> {
                &&& is_part("close of closed channel"@, message) ==> go_panic(message)
                    == "panic: close of closed channel"@
                &&& !is_part("close of closed channel"@, message) ==> {
                    &&& is_part("send on closed channel"@, message) ==> go_panic(message)
                        == "panic: send on closed channel"@
                    &&& !is_part("send on closed channel"@, message) ==> {
                        let concurrent = is_part("concurrent write"@, message) || is_part(
                            "concurrent map"@,
                            message,
                        );
                        &&& concurrent ==> go_panic(message) == "panic: concurrent map write"@
                        &&& !concurrent ==> go_panic(message) == "panic: "@ + first_words(message, 4)
                    }
                }
            }
        },
{
    lemma_containing(message, "nil pointer"@);
    lemma_containing(message, "index out of range"@);
    lemma_containing(message, "close of closed channel"@);
    lemma_containing(message, "send on closed channel"@);
    lemma_containing(message, "concurrent write"@);
    lemma_containing(message, "concurrent map"@);
}

/// A panic is recognised exactly where the log says so, but for case.
pub proof fn lemma_panic_is_there(log: Seq<char>)
    ensures
        panic_found(log) is Some <==> {
            ||| is_part("panic:"@, lowered(log))
            ||| is_part("fatal error:"@, lowered(log))
            ||| is_part("panicked at"@, lowered(log))
            ||| is_part("panicked '"@, lowered(log))
        },
{
    let low = lowered(log);
    lemma_containing(low, "panic:"@);
    lemma_containing(low, "fatal error:"@);
    lemma_containing(low, "panicked at"@);
    lemma_containing(low, "panicked '"@);
    if contains(low, "panicked at"@) || contains(low, "panicked '"@) {
        lemma_panicked(low);
    }
}

/// A fatal error is the fingerprint of any log that reports it and nothing more specific, with the first
/// four words behind it, their times masked.
pub proof fn lemma_fatal_error_is_fingerprint(log: Seq<char>, i: int)
    requires
        is_first_at(lowered(trim(log)), "fatal error:"@, i),
        !is_part("panic:"@, lowered(trim(log))),
        no_error(trim(log)),
    ensures
        fingerprint(log) == "fatal error: "@ + first_words(
            trim(without_timestamps(trim(log).skip(i + 12))),
            4,
        ),
{
    reveal_strlit("fatal error:");
    let low = lowered(trim(log));
    lemma_first_at(low, "fatal error:"@, i);
    lemma_containing(low, "panic:"@);
}

/// A text without quotes has none to be found.
proof fn lemma_no_quote(text: Seq<char>)
    requires
        !text.contains('\''),
    ensures
        find(text, "'"@) is None,
{
    reveal_strlit("'");
    lemma_find(text, "'"@);
    if find(text, "'"@) is Some {
        let i = find(text, "'"@)->0;
        assert(text.subrange(i, i + 1)[0] == text[i]);
        assert(text[i] == '\'');
    }
}

/// The first quote in a text stands behind what has none.
proof fn lemma_first_quote(before: Seq<char>, after: Seq<char>)
    requires
        !before.contains('\''),
    ensures
        find(before + "'"@ + after, "'"@) == Some(before.len() as int),
{
    reveal_strlit("'");
    let text = before + "'"@ + after;
    let n = before.len() as int;
    assert(text.subrange(n, n + 1) =~= "'"@);
    assert forall|j: int| 0 <= j < n implies !#[trigger] stands_at(text, "'"@, j) by {
        if stands_at(text, "'"@, j) {
            assert(text.subrange(j, j + 1)[0] == text[j]);
            assert(before[j] == '\'');
        }
    }
    lemma_first_at(text, "'"@, n);
}

/// A Rust panic is called by what stands between the first two quotes behind the word, its times masked
/// and no more than 60 characters of it; without two quotes it is called unknown.
pub proof fn lemma_quoted_panic(before: Seq<char>, message: Seq<char>, after: Seq<char>)
    requires
        !before.contains('\''),
        !message.contains('\''),
    ensures
        rust_panic(before + "'"@ + message + "'"@ + after) == "panic: "@ + prefix(
            without_timestamps(message),
            60,
        ),
        rust_panic(before + "'"@ + message) == "panic: (unknown)"@,
        rust_panic(before) == "panic: (unknown)"@,
{
    reveal_strlit("'");
    let rest = message + "'"@ + after;
    let text = before + "'"@ + message + "'"@ + after;
    assert(text =~= before + "'"@ + rest);
    lemma_first_quote(before, rest);
    assert(text.skip(before.len() as int + 1) =~= rest);
    lemma_first_quote(message, after);
    assert(rest.take(message.len() as int) =~= message);
    let open = before + "'"@ + message;
    lemma_first_quote(before, message);
    assert(open.skip(before.len() as int + 1) =~= message);
    lemma_no_quote(message);
    lemma_no_quote(before);
}

/// Whether a log sets what was expected against what came, but for case.
pub open spec fn is_expectation(log: Seq<char>) -> bool {
    is_part("expected"@, lowered(log)) && (is_part("got"@, lowered(log)) || is_part("but"@, lowered(log)))
}

/// Whether a log names an assertion error, but for case.
pub open spec fn is_assertion_error(log: Seq<char>) -> bool {
    is_part("assertionerror"@, lowered(log)) || is_part("assertion error"@, lowered(log))
}

/// Whether a log reports a failed test with an assertion, but for case.
pub open spec fn is_failed_test(log: Seq<char>) -> bool {
    "failed"@.is_prefix_of(lowered(log)) && is_part("assertion"@, lowered(log))
}

/// Whether a log holds an expectation of Jest or Vitest, but for case.
pub open spec fn is_expect_call(log: Seq<char>) -> bool {
    (is_part("expect("@, lowered(log)) && is_part("tobe("@, lowered(log))) || is_part(
        "toequal("@,
        lowered(log),
    )
}

/// Whether a log holds a failed assertion of a Rust test, but for case.
pub open spec fn is_rust_assertion(log: Seq<char>) -> bool {
    is_part("assertion failed"@, lowered(log)) || is_part("assert_eq!"@, lowered(log)) || is_part(
        "assert_ne!"@,
        lowered(log),
    )
}

/// What a failed test is recognised by, and what it is called where that does not depend on the rest of the
/// log.
pub proof fn lemma_test_failures(log: Seq<char>)
    ensures
        test_failure(log) is Some <==> {
            ||| is_expectation(log)
            ||| is_assertion_error(log)
            ||| is_failed_test(log)
            ||| is_expect_call(log)
            ||| is_rust_assertion(log)
        },
        !is_expectation(log) && !is_assertion_error(log) && is_failed_test(log) ==> test_failure(log)
            == Some("test: failed assertion"@),
        !is_expectation(log) && !is_assertion_error(log) && !is_failed_test(log) && is_expect_call(log)
            ==> test_failure(log) == Some("test: expect assertion"@),
{
    let low = lowered(log);
    lemma_containing(low, "expected"@);
    lemma_containing(low, "got"@);
    lemma_containing(low, "but"@);
    lemma_containing(low, "assertionerror"@);
    lemma_containing(low, "assertion error"@);
    lemma_containing(low, "assertion"@);
    lemma_containing(low, "expect("@);
    lemma_containing(low, "tobe("@);
    lemma_containing(low, "toequal("@);
    lemma_containing(low, "assertion failed"@);
    lemma_containing(low, "assert_eq!"@);
    lemma_containing(low, "assert_ne!"@);
    let mark = "failed"@;
    if mark.is_prefix_of(low) {
        assert(low.subrange(0, mark.len() as int) =~= mark);
    }
    if starts_with(low, mark) {
        assert(mark =~= low.take(mark.len() as int));
    }
}

/// Whether a log speaks of an assertion at a place: in upper case, where a sharp s is two letters.
pub open spec fn speaks_of_assertion(log: Seq<char>, i: int) -> bool {
    stands_at(raised(log), "ASSERTION"@, i) || stands_at(raised(log), "AßERTION"@, i)
}

/// A failed assertion is called by its text from where the log first speaks of it, its times masked and no
/// more than 60 characters of it.
pub proof fn lemma_assertion_text(log: Seq<char>, i: int)
    requires
        !is_expectation(log),
    ensures
        is_assertion_error(log) && speaks_of_assertion(log, i) && (forall|j: int|
            0 <= j < i ==> !#[trigger] speaks_of_assertion(log, j)) ==> test_failure(log) == Some(
            "assert: "@ + prefix(without_timestamps(log.skip(i)), 60),
        ),
        is_assertion_error(log) && (forall|j: int| !#[trigger] speaks_of_assertion(log, j))
            ==> test_failure(log) == Some("assert: AssertionError"@),
        !is_assertion_error(log) && !is_failed_test(log) && !is_expect_call(log) ==> {
            let low = lowered(log);
            let text = Some("assert: "@ + prefix(without_timestamps(log.skip(i)), 60));
            &&& is_first_at(low, "assertion failed"@, i) ==> test_failure(log) == text
            &&& !is_part("assertion failed"@, low) && is_first_at(low, "assert_eq!"@, i)
                ==> test_failure(log) == text
            &&& !is_part("assertion failed"@, low) && !is_part("assert_eq!"@, low) && is_first_at(
                low,
                "assert_ne!"@,
                i,
            ) ==> test_failure(log) == text
        },
{
    let low = lowered(log);
    let up = raised(log);
    lemma_test_failures(log);
    lemma_containing(low, "expected"@);
    lemma_containing(low, "got"@);
    lemma_containing(low, "but"@);
    lemma_containing(low, "assertionerror"@);
    lemma_containing(low, "assertion error"@);
    lemma_containing(low, "assertion"@);
    lemma_containing(low, "expect("@);
    lemma_containing(low, "tobe("@);
    lemma_containing(low, "toequal("@);
    lemma_containing(low, "assertion failed"@);
    lemma_containing(low, "assert_eq!"@);
    lemma_find(up, "ASSERTION"@);
    lemma_find(up, "AßERTION"@);
    let mark = "failed"@;
    if starts_with(low, mark) {
        assert(mark =~= low.take(mark.len() as int));
    }
    if speaks_of_assertion(log, i) && (forall|j: int|
        0 <= j < i ==> !#[trigger] speaks_of_assertion(log, j)) {
        if let Some(k) = find(up, "ASSERTION"@) {
            assert(speaks_of_assertion(log, k));
        }
        if let Some(k) = find(up, "AßERTION"@) {
            assert(speaks_of_assertion(log, k));
        }
        assert(assertion_at(log) == Some(i));
    }
    if forall|j: int| !#[trigger] speaks_of_assertion(log, j) {
        if let Some(k) = find(up, "ASSERTION"@) {
            assert(speaks_of_assertion(log, k));
        }
        if let Some(k) = find(up, "AßERTION"@) {
            assert(speaks_of_assertion(log, k));
        }
    }
    if is_first_at(low, "assertion failed"@, i) {
        lemma_first_at(low, "assertion failed"@, i);
    }
    if is_first_at(low, "assert_eq!"@, i) {
        lemma_first_at(low, "assert_eq!"@, i);
    }
    if is_first_at(low, "assert_ne!"@, i) {
        lemma_first_at(low, "assert_ne!"@, i);
    }
}

/// Points in time are recognised by these two patterns.
pub proof fn lemma_patterns()
    ensures
        DATE_TIME@ == r"\d{4}-\d{2}-\d{2}[T ]\d{2}:\d{2}:\d{2}(\.\d+)?(Z|[+-]\d{2}:?\d{2})?"@,
        TIME_OF_DAY@ == r"\b\d{2}:\d{2}:\d{2}(\.\d+)?\b"@,
{
}

/// A log that holds no known pattern is called by its start: no more than 80 characters, their times masked
/// and the rest trimmed.
pub proof fn lemma_start_is_fingerprint(log: Seq<char>, start: Seq<char>, rest: Seq<char>)
    requires
        no_pattern(trim(log)),
        trim(log) == start + rest,
        start.len() == 80 || (start.len() < 80 && rest.len() == 0),
    ensures
        fingerprint(log) == trim(without_timestamps(start)),
{
    let text = trim(log);
    if rest.len() == 0 {
        assert(text =~= start);
    }
    assert(prefix(text, 80) =~= start);
}

/// A status is trimmed down to ASCII digits; a word behind it to letters, numbers and hyphens.
pub proof fn lemma_what_a_core_keeps(c: char)
    ensures
        Core::Digits.keeps(c) <==> '0' <= c <= '9',
        Core::Letters.keeps(c) <==> alphanumeric(c) || c == '-',
{
}

/// Whether a text has no character that trimming down to `core` stops at.
pub open spec fn is_husk(s: Seq<char>, core: Core) -> bool {
    forall|i: int| 0 <= i < s.len() ==> !core.keeps(#[trigger] s[i])
}

/// Trimming a word down to a core takes away what is none of it at both ends, and nothing else.
pub proof fn lemma_core(a: Seq<char>, s: Seq<char>, b: Seq<char>, core: Core)
    requires
        is_husk(a, core),
        is_husk(b, core),
        s.len() == 0 || (core.keeps(s[0]) && core.keeps(s.last())),
    ensures
        trimmed_to(a + s + b, core) == s,
    decreases a.len() + b.len(),
{
    let text = a + s + b;
    if a.len() > 0 {
        assert(text[0] == a[0]);
        assert(!core.keeps(a[0]));
        assert(text.drop_first() =~= a.drop_first() + s + b);
        assert forall|i: int| 0 <= i < a.drop_first().len() implies !core.keeps(
            #[trigger] a.drop_first()[i],
        ) by {
            assert(!core.keeps(a[i + 1]));
        }
        lemma_core(a.drop_first(), s, b, core);
    } else if s.len() == 0 {
        if b.len() > 0 {
            assert(text =~= b);
            assert(!core.keeps(b[0]));
            assert(text.drop_first() =~= a + s + b.drop_first());
            assert forall|i: int| 0 <= i < b.drop_first().len() implies !core.keeps(
                #[trigger] b.drop_first()[i],
            ) by {
                assert(!core.keeps(b[i + 1]));
            }
            lemma_core(a, s, b.drop_first(), core);
        } else {
            assert(text =~= s);
        }
    } else {
        assert(text[0] == s[0]);
        assert(core_start(text, core) == text);
        lemma_core_end(s, b, core);
        assert(text =~= s + b);
    }
}

/// What is none of a core at the end is taken away.
proof fn lemma_core_end(s: Seq<char>, b: Seq<char>, core: Core)
    requires
        is_husk(b, core),
        s.len() > 0,
        core.keeps(s.last()),
    ensures
        core_end(s + b, core) == s,
    decreases b.len(),
{
    let text = s + b;
    if b.len() == 0 {
        assert(text =~= s);
    } else {
        assert(text.last() == b.last());
        assert(!core.keeps(b[b.len() - 1]));
        assert(text.drop_last() =~= s + b.drop_last());
        assert forall|i: int| 0 <= i < b.drop_last().len() implies !core.keeps(
            #[trigger] b.drop_last()[i],
        ) by {
            assert(!core.keeps(b[i]));
        }
        lemma_core_end(s, b.drop_last(), core);
    }
}

/// Cleaning words keeps what is left of each, and leaves out those of which nothing is.
pub proof fn lemma_cleaned_words(parts: Seq<Seq<char>>, part: Seq<char>)
    ensures
        cleaned(Seq::<Seq<char>>::empty()).len() == 0,
        trimmed_to(part, Core::Letters).len() == 0 ==> cleaned(parts.push(part)) == cleaned(parts),
        trimmed_to(part, Core::Letters).len() > 0 ==> cleaned(parts.push(part)) == cleaned(parts).push(
            trimmed_to(part, Core::Letters),
        ),
{
    assert(parts.push(part).drop_last() =~= parts);
}

/// An HTTP error is recognised exactly where a word of the log is a status but for what surrounds its
/// digits.
pub proof fn lemma_status_is_there(log: Seq<char>)
    ensures
        http_error(log) is Some <==> exists|i: int|
            0 <= i < words(log).len() && is_status(#[trigger] trimmed_to(words(log)[i], Core::Digits)),
{
    lemma_status_from(words(log), 0);
}

/// `lemma_status_is_there` from the `k`-th word on.
proof fn lemma_status_from(parts: Seq<Seq<char>>, k: int)
    requires
        0 <= k <= parts.len(),
    ensures
        http_error_from(parts, k) is Some <==> exists|i: int|
            k <= i < parts.len() && is_status(#[trigger] trimmed_to(parts[i], Core::Digits)),
    decreases parts.len() - k,
{
    if k < parts.len() {
        if is_status(trimmed_to(parts[k], Core::Digits)) {
            assert(is_status(trimmed_to(parts[k], Core::Digits)));
        } else {
            lemma_status_from(parts, k + 1);
        }
    }
}

} // verus!

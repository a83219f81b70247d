//! What a log says of Python exceptions and of panics. Both are looked for without regard to case.
use vstd::prelude::*;
use vstd::slice::slice_subrange;
use crate::casing::{fold, folded, lower_all, lowered};
use crate::text::{
    begins_with, chars_of, concat, contains, find, first_words, has, head, leading_words, lemma_find, names, pair,
    position_of, prefix, shown, stands_at, starts_with, tail, text_of, trim, trim_start, trimmed, trimmed_start,
};
use crate::timestamps::{strip_timestamps, without_timestamps};

verus! {

/// The Python exceptions, in the order in which they are looked for.
pub open spec fn python_exceptions() -> Seq<Seq<char>> {
    seq![
        "ValueError"@,
        "TypeError"@,
        "KeyError"@,
        "IndexError"@,
        "AttributeError"@,
        "ImportError"@,
        "ModuleNotFoundError"@,
        "FileNotFoundError"@,
        "OSError"@,
        "RuntimeError"@,
        "RecursionError"@,
        "StopIteration"@,
        "AssertionError"@,
        "OverflowError"@,
        "ZeroDivisionError"@,
        "UnboundLocalError"@,
        "NameError"@,
        "SyntaxError"@,
        "IndentationError"@,
        "TabError"@,
        "SystemExit"@,
        "KeyboardInterrupt"@,
        "ConnectionError"@,
        "TimeoutError"@,
    ]
}

/// The exception `name` and the first four words of its message, which follows a colon, as a line
/// reports them.
pub open spec fn python_exception(line: Seq<char>, name: Seq<char>) -> Option<Seq<char>> {
    match find(folded(line), folded(name)) {
        None => None,
        Some(i) => {
            let after = trim_start(line.skip(i + name.len()));
            if starts_with(after, ":"@) {
                let message = without_timestamps(trim(after.skip(1)));
                Some(name + ": "@ + first_words(message, 4))
            } else {
                None
            }
        },
    }
}

/// The first of the exceptions from the `k`-th on that a line reports with a message.
pub open spec fn line_error_from(line: Seq<char>, k: int) -> Option<Seq<char>>
    decreases python_exceptions().len() - k,
{
    if k < 0 || k >= python_exceptions().len() {
        None
    } else {
        match python_exception(line, python_exceptions()[k]) {
            Some(found) => Some(found),
            None => line_error_from(line, k + 1),
        }
    }
}

/// The exception that a line reports with a message.
pub open spec fn line_error(line: Seq<char>) -> Option<Seq<char>> {
    line_error_from(line, 0)
}

/// Where the last line of a text starts.
pub open spec fn last_line(s: Seq<char>) -> int
    decreases s.len(),
{
    if s.len() == 0 || s.last() == '\n' {
        s.len() as int
    } else {
        last_line(s.drop_last())
    }
}

/// The exception that the last line reports, of those lines which report one.
pub open spec fn python_error(log: Seq<char>) -> Option<Seq<char>>
    decreases log.len(),
{
    let start = last_line(log);
    match line_error(log.skip(start)) {
        Some(found) => Some(found),
        None => if 0 < start <= log.len() {
            python_error(log.take(start - 1))
        } else {
            None
        },
    }
}

/// `python_exceptions` as a list.
fn python_exception_list() -> (list: Vec<&'static str>)
    ensures
        names(list@) == python_exceptions(),
{
    let list = vec![
        "ValueError", "TypeError", "KeyError", "IndexError", "AttributeError", "ImportError",
        "ModuleNotFoundError", "FileNotFoundError", "OSError", "RuntimeError", "RecursionError",
        "StopIteration", "AssertionError", "OverflowError", "ZeroDivisionError", "UnboundLocalError",
        "NameError", "SyntaxError", "IndentationError", "TabError", "SystemExit", "KeyboardInterrupt",
        "ConnectionError", "TimeoutError",
    ];
    assert(names(list@) =~= python_exceptions());
    list
}

/// `python_exception` on a slice, of which `low` is the folded form.
fn find_python_exception(line: &[char], low: &[char], name: &str) -> (found: Option<String>)
    requires
        low@ == folded(line@),
    ensures
        shown(found) == python_exception(line@, name@),
{
    let name_chars = chars_of(name);
    let low_name = text_of(fold(name_chars.as_slice()).as_slice());
    match position_of(low, low_name.as_str()) {
        None => None,
        Some(i) => {
            let after = trimmed_start(tail(line, i + name_chars.len()));
            if begins_with(after, ":") {
                proof {
                    reveal_strlit(":");
                }
                let message = strip_timestamps(text_of(trimmed(tail(after, 1))).as_str());
                let first = leading_words(chars_of(message.as_str()).as_slice(), 4);
                Some(concat(name, ": ", first.as_str()))
            } else {
                None
            }
        },
    }
}

/// `line_error` on a slice.
fn find_line_error(line: &[char]) -> (found: Option<String>)
    ensures
        shown(found) == line_error(line@),
{
    let low = fold(line);
    let list = python_exception_list();
    let mut k: usize = 0;
    while k < list.len()
        invariant
            k <= list@.len(),
            low@ == folded(line@),
            names(list@) == python_exceptions(),
            line_error(line@) == line_error_from(line@, k as int),
        decreases list@.len() - k,
    {
        assert(names(list@)[k as int] == list@[k as int]@);
        assert(names(list@).len() == list@.len());
        let found = find_python_exception(line, low.as_slice(), list[k]);
        if found.is_some() {
            return found;
        }
        k += 1;
    }
    assert(names(list@).len() == list@.len());
    None
}

/// The last line starts within the text.
pub proof fn lemma_last_line(s: Seq<char>)
    ensures
        0 <= last_line(s) <= s.len(),
        last_line(s) > 0 ==> s[last_line(s) - 1] == '\n',
        forall|i: int| last_line(s) <= i < s.len() ==> #[trigger] s[i] != '\n',
    decreases s.len(),
{
    if s.len() > 0 && s.last() != '\n' {
        lemma_last_line(s.drop_last());
        assert forall|i: int| last_line(s) <= i < s.len() implies #[trigger] s[i] != '\n' by {
            if i < s.len() - 1 {
                assert(s.drop_last()[i] == s[i]);
            }
        }
    }
}

/// `last_line` on a slice.
fn find_last_line(s: &[char]) -> (start: usize)
    ensures
        start == last_line(s@),
        start <= s@.len(),
{
    let mut n: usize = s.len();
    assert(s@.take(n as int) =~= s@);
    while n > 0 && s[n - 1] != '\n'
        invariant
            n <= s@.len(),
            last_line(s@) == last_line(s@.take(n as int)),
        decreases n,
    {
        assert(s@.take(n as int).drop_last() =~= s@.take(n - 1));
        n -= 1;
    }
    n
}

/// Extracts the Python exception of the last line that reports one, and the start of its message.
pub fn extract_python_error(log: &str) -> (found: Option<String>)
    ensures
        shown(found) == python_error(log@),
{
    let chars = chars_of(log);
    let mut n: usize = chars.len();
    assert(chars@.take(n as int) =~= log@);
    loop
        invariant
            n <= chars@.len(),
            python_error(log@) == python_error(chars@.take(n as int)),
        decreases n,
    {
        let rest = slice_subrange(chars.as_slice(), 0, n);
        assert(rest@ =~= chars@.take(n as int));
        let start: usize = find_last_line(rest);
        let found = find_line_error(tail(rest, start));
        if found.is_some() || start == 0 {
            return found;
        }
        assert(rest@.take(start - 1) =~= chars@.take(start - 1));
        n = start - 1;
    }
}

/// What stands behind the first occurrence of a mark, its times masked.
pub open spec fn behind(log: Seq<char>, mark: Seq<char>) -> Seq<char> {
    match find(lowered(log), mark) {
        None => seq![],
        Some(i) => trim(without_timestamps(log.skip(i + mark.len()))),
    }
}

/// `behind` on a slice, of which `low` is the lowered form.
pub fn read_behind(log: &[char], low: &[char], mark: &str) -> (text: String)
    requires
        low@ == lowered(log@),
    ensures
        text@ == behind(log@, mark@),
{
    match position_of(low, mark) {
        None => {
            let text = String::new();
            assert(text@ =~= seq![]);
            text
        },
        Some(i) => {
            let n: usize = chars_of(mark).len();
            let masked = strip_timestamps(text_of(tail(log, i + n)).as_str());
            let masked_chars = chars_of(masked.as_str());
            text_of(trimmed(masked_chars.as_slice()))
        },
    }
}

/// What a Go panic is about, `message` being what it says.
pub open spec fn go_panic(message: Seq<char>) -> Seq<char> {
    if contains(message, "nil pointer"@) {
        "panic: nil pointer dereference"@
    } else if contains(message, "index out of range"@) {
        "panic: index out of range"@
    } else if contains(message, "close of closed channel"@) {
        "panic: close of closed channel"@
    } else if contains(message, "send on closed channel"@) {
        "panic: send on closed channel"@
    } else if contains(message, "concurrent write"@) || contains(message, "concurrent map"@) {
        "panic: concurrent map write"@
    } else {
        "panic: "@ + first_words(message, 4)
    }
}

/// `go_panic` on a slice.
pub fn describe_go_panic(message: &[char]) -> (text: String)
    ensures
        text@ == go_panic(message@),
{
    if has(message, "nil pointer") {
        "panic: nil pointer dereference".to_owned()
    } else if has(message, "index out of range") {
        "panic: index out of range".to_owned()
    } else if has(message, "close of closed channel") {
        "panic: close of closed channel".to_owned()
    } else if has(message, "send on closed channel") {
        "panic: send on closed channel".to_owned()
    } else if has(message, "concurrent write") || has(message, "concurrent map") {
        "panic: concurrent map write".to_owned()
    } else {
        pair("panic: ", leading_words(message, 4).as_str())
    }
}

/// The text between the first two single quotes of `s`.
pub open spec fn quoted(s: Seq<char>) -> Option<Seq<char>> {
    match find(s, "'"@) {
        None => None,
        Some(start) => {
            let rest = s.skip(start + 1);
            match find(rest, "'"@) {
                None => None,
                Some(end) => Some(rest.take(end)),
            }
        },
    }
}

/// What a Rust panic says, `message` being what it quotes.
pub open spec fn quoted_panic(message: Option<Seq<char>>) -> Seq<char> {
    match message {
        None => "panic: (unknown)"@,
        Some(text) => "panic: "@ + prefix(without_timestamps(text), 60),
    }
}

/// What a Rust panic says, `rest` being what stands behind the word `panicked`.
pub open spec fn rust_panic(rest: Seq<char>) -> Seq<char> {
    quoted_panic(quoted(rest))
}

/// `rust_panic` on a slice.
fn describe_rust_panic(rest: &[char]) -> (text: String)
    ensures
        text@ == rust_panic(rest@),
{
    proof {
        reveal_strlit("'");
    }
    if let Some(start) = position_of(rest, "'") {
        let behind_quote = tail(rest, start + 1);
        if let Some(end) = position_of(behind_quote, "'") {
            let message = slice_subrange(behind_quote, 0, end);
            assert(message@ =~= behind_quote@.take(end as int));
            let masked = strip_timestamps(text_of(message).as_str());
            let masked_chars = chars_of(masked.as_str());
            return pair("panic: ", text_of(head(masked_chars.as_slice(), 60)).as_str());
        }
    }
    "panic: (unknown)".to_owned()
}

/// A Go panic or fatal error, else a Rust panic.
pub open spec fn panic_found(log: Seq<char>) -> Option<Seq<char>> {
    let low = lowered(log);
    if contains(low, "panic:"@) {
        Some(go_panic(behind(log, "panic:"@)))
    } else if contains(low, "fatal error:"@) {
        Some("fatal error: "@ + first_words(behind(log, "fatal error:"@), 4))
    } else if contains(low, "panicked at"@) || contains(low, "panicked '"@) {
        match find(low, "panicked"@) {
            None => None,
            Some(i) => Some(rust_panic(log.skip(i + 9))),
        }
    } else {
        None
    }
}

/// Where the word `panicked` is followed by one of the two forms of a message, at least one character
/// stands behind its first occurrence.
pub proof fn lemma_panicked(low: Seq<char>)
    requires
        contains(low, "panicked at"@) || contains(low, "panicked '"@),
    ensures
        find(low, "panicked"@) matches Some(i) && i + 9 <= low.len(),
{
    reveal_strlit("panicked");
    reveal_strlit("panicked at");
    reveal_strlit("panicked '");
    lemma_find(low, "panicked"@);
    lemma_find(low, "panicked at"@);
    lemma_find(low, "panicked '"@);
    let longer = if contains(low, "panicked at"@) {
        "panicked at"@
    } else {
        "panicked '"@
    };
    let j = find(low, longer)->0;
    assert(longer.take(8) =~= "panicked"@);
    assert(low.subrange(j, j + 8) =~= low.subrange(j, j + longer.len()).take(8));
    assert(stands_at(low, "panicked"@, j));
}

/// Extracts a Go or Rust panic.
pub fn extract_panic(log: &str) -> (found: Option<String>)
    ensures
        shown(found) == panic_found(log@),
{
    let chars = chars_of(log);
    let low_chars = lower_all(chars.as_slice());
    let low = low_chars.as_slice();
    if has(low, "panic:") {
        let message = chars_of(read_behind(chars.as_slice(), low, "panic:").as_str());
        Some(describe_go_panic(message.as_slice()))
    } else if has(low, "fatal error:") {
        let message = chars_of(read_behind(chars.as_slice(), low, "fatal error:").as_str());
        Some(pair("fatal error: ", leading_words(message.as_slice(), 4).as_str()))
    } else if has(low, "panicked at") || has(low, "panicked '") {
        proof {
            lemma_panicked(low@);
        }
        match position_of(low, "panicked") {
            None => None,
            Some(i) => Some(describe_rust_panic(tail(chars.as_slice(), i + 9))),
        }
    } else {
        None
    }
}

} // verus!

//! Masking the points in time that a log mentions.
use vstd::prelude::*;
use crate::casing::is_digit;

verus! {

/// Matches a date and a time of day, such as `2024-01-15T14:32:01.5+02:00`.
pub const DATE_TIME: &'static str = r"\d{4}-\d{2}-\d{2}[T ]\d{2}:\d{2}:\d{2}(\.\d+)?(Z|[+-]\d{2}:?\d{2})?";

/// Matches a time of day, such as `14:32:01.5`.
pub const TIME_OF_DAY: &'static str = r"\b\d{2}:\d{2}:\d{2}(\.\d+)?\b";

/// Whether two digits stand in `s` at `i`.
pub open spec fn two_digits(s: Seq<char>, i: int) -> bool {
    is_digit(s[i]) && is_digit(s[i + 1])
}

/// Whether `s` is a time of day such as `14:32:01`.
pub open spec fn is_time(s: Seq<char>) -> bool {
    s.len() == 8 && two_digits(s, 0) && s[2] == ':' && two_digits(s, 3) && s[5] == ':' && two_digits(
        s,
        6,
    )
}

/// Whether `s` is a date such as `2024-01-15`.
pub open spec fn is_date(s: Seq<char>) -> bool {
    s.len() == 10 && two_digits(s, 0) && two_digits(s, 2) && s[4] == '-' && two_digits(s, 5) && s[7]
        == '-' && two_digits(s, 8)
}

/// Whether `s` is a date and a time of day with a `T` or a space between them.
pub open spec fn is_date_time(s: Seq<char>) -> bool {
    s.len() == 19 && is_date(s.take(10)) && (s[10] == 'T' || s[10] == ' ') && is_time(s.skip(11))
}

/// Whether a date and a time of day stand anywhere in `s`.
pub open spec fn has_date_time(s: Seq<char>) -> bool {
    exists|i: int| 0 <= i <= s.len() - 19 && is_date_time(#[trigger] s.subrange(i, i + 19))
}

/// Whether a time of day stands anywhere in `s` with nothing but a space or an end of `s` on each side.
pub open spec fn has_lone_time(s: Seq<char>) -> bool {
    exists|i: int|
        0 <= i <= s.len() - 8 && is_time(#[trigger] s.subrange(i, i + 8)) && (i == 0 || s[i - 1] == ' ')
            && (i + 8 == s.len() || s[i + 8] == ' ')
}

/// Whether `s` holds two colons with two characters between them, as every time of day does.
pub open spec fn has_time_colons(s: Seq<char>) -> bool {
    exists|i: int| 0 <= i < s.len() - 3 && #[trigger] s[i] == ':' && s[i + 3] == ':'
}

/// Whether `s` is printable ASCII, is no part of a date or a time of day, and stands for itself in a
/// replacement.
pub open spec fn is_mask(s: Seq<char>) -> bool {
    s.len() >= 2 && forall|i: int|
        0 <= i < s.len() ==> ' ' < #[trigger] s[i] <= '~' && !is_digit(s[i]) && s[i] != '$'
}

/// Whether what stands between `a` and `b` has nothing but a space or an end of the text on each side.
pub open spec fn is_apart(a: Seq<char>, b: Seq<char>) -> bool {
    (a.len() == 0 || a.last() == ' ') && (b.len() == 0 || b[0] == ' ')
}

/// Whether `t` is a time of day that stands alone between `a` and `b`, without a date before it.
pub open spec fn is_lone_time(a: Seq<char>, t: Seq<char>, b: Seq<char>) -> bool {
    is_time(t) && is_apart(a, b) && (a.len() < 4 || a[a.len() - 4] != '-')
}

/// Whether `t` is a date and a time of day that stand alone between `a` and `b`.
pub open spec fn is_lone_date_time(a: Seq<char>, t: Seq<char>, b: Seq<char>) -> bool {
    is_date_time(t) && is_apart(a, b)
}

/// `text` with every match of the regular expression `pattern` replaced by `replacement`, as
/// `regex::Regex::replace_all` does it.
pub uninterp spec fn replaced(pattern: Seq<char>, text: Seq<char>, replacement: Seq<char>) -> Seq<char>;

/// Whether `out` holds no match of `DATE_TIME` where `text` holds none.
pub open spec fn stays_dateless(text: Seq<char>, out: Seq<char>) -> bool {
    forall|mask: Seq<char>|
        is_mask(mask) && replaced(DATE_TIME@, text, mask) == text ==> #[trigger] replaced(
            DATE_TIME@,
            out,
            mask,
        ) == out
}

/// Whether `out` is `text` with a time of day that stands alone replaced, and the text on both sides of it
/// replaced for itself.
pub open spec fn lone_times_go(text: Seq<char>, replacement: Seq<char>, out: Seq<char>) -> bool {
    forall|a: Seq<char>, t: Seq<char>, b: Seq<char>| #[trigger]
        (a + t + b) == text && is_time(t) && is_apart(a, b) ==> out == replaced(
            TIME_OF_DAY@,
            a,
            replacement,
        ) + replacement + replaced(TIME_OF_DAY@, b, replacement)
}

/// Whether `out` is `text` with words without a colon kept, and the text on both sides of them replaced for
/// itself.
pub open spec fn other_words_stay(text: Seq<char>, replacement: Seq<char>, out: Seq<char>) -> bool {
    forall|a: Seq<char>, w: Seq<char>, b: Seq<char>| #[trigger]
        (a + w + b) == text && !w.contains(':') && is_apart(a, b) ==> out == replaced(
            TIME_OF_DAY@,
            a,
            replacement,
        ) + w + replaced(TIME_OF_DAY@, b, replacement)
}

/// Whether `out` is `text` with a date and a time that stand alone replaced, and the text on both sides of
/// them replaced for itself, the replacement again standing apart.
pub open spec fn lone_dates_go(text: Seq<char>, replacement: Seq<char>, out: Seq<char>) -> bool {
    forall|a: Seq<char>, t: Seq<char>, b: Seq<char>| #[trigger]
        (a + t + b) == text && is_lone_date_time(a, t, b) ==> {
            let x = replaced(DATE_TIME@, a, replacement);
            let y = replaced(DATE_TIME@, b, replacement);
            out == x + replacement + y && is_apart(x, y)
        }
}

/// Whether `out` is `text` with a time of day that stands alone kept, and the text on both sides of it
/// replaced for itself, the time again standing apart.
pub open spec fn lone_times_stay(text: Seq<char>, replacement: Seq<char>, out: Seq<char>) -> bool {
    forall|a: Seq<char>, t: Seq<char>, b: Seq<char>| #[trigger]
        (a + t + b) == text && is_lone_time(a, t, b) ==> {
            let x = replaced(DATE_TIME@, a, replacement);
            let y = replaced(DATE_TIME@, b, replacement);
            out == x + t + y && is_apart(x, y)
        }
}

/// `regex::Regex::replace_all` with the expression that `regex::Regex::new` compiles from `pattern`.
/// Both patterns that are admitted compile. What it returns is a function of the pattern, the text
/// and the replacement. Each match of either pattern holds two colons with two digits between them, and
/// each match of `DATE_TIME` a hyphen, so a text without these has no match and comes back as it is. A
/// text that is a match from end to end becomes the replacement, in which only a `$` would mean
/// anything else.
///
/// Where the replacement is a mask, more is claimed. All matches are replaced, from left to right, so
/// that none is left between two of them, and none can form across the edge of a mask: replacing again
/// changes nothing, and replacing times of day brings up no date with a time. No match starts or ends
/// with a space. So text on two sides of a space is replaced apart, but for a date with a time that a
/// match of `DATE_TIME` reads across the space, which then stands behind two digits and a hyphen. A
/// date with a time, and a time of day, that stand apart so are matches of their patterns from end to
/// end; a time of day is no match of `DATE_TIME`; and what holds no colon is no match of either. The rest
/// of the result is left to the name.
#[verifier::external_body]
fn replace_all(pattern: &str, text: &str, replacement: &str) -> (out: String)
    requires
        pattern@ == DATE_TIME@ || pattern@ == TIME_OF_DAY@,
    ensures
        out@ == replaced(pattern@, text@, replacement@),
        !has_time_colons(text@) ==> out@ == text@,
        pattern@ == DATE_TIME@ && !text@.contains('-') ==> out@ == text@,
        pattern@ == DATE_TIME@ && is_date_time(text@) && is_mask(replacement@) ==> out@
            == replacement@,
        pattern@ == TIME_OF_DAY@ && is_time(text@) && is_mask(replacement@) ==> out@ == replacement@,
        pattern@ == DATE_TIME@ && is_mask(replacement@) ==> !has_date_time(out@),
        pattern@ == TIME_OF_DAY@ && is_mask(replacement@) ==> !has_lone_time(out@),
        !has_date_time(text@) && is_mask(replacement@) ==> !has_date_time(out@),
        is_mask(replacement@) ==> replaced(pattern@, out@, replacement@) == out@,
        is_mask(replacement@) ==> stays_dateless(text@, out@),
        pattern@ == TIME_OF_DAY@ && is_mask(replacement@) ==> lone_times_go(text@, replacement@, out@),
        pattern@ == TIME_OF_DAY@ && is_mask(replacement@) ==> other_words_stay(
            text@,
            replacement@,
            out@,
        ),
        pattern@ == DATE_TIME@ && is_mask(replacement@) ==> lone_dates_go(text@, replacement@, out@),
        pattern@ == DATE_TIME@ && is_mask(replacement@) ==> lone_times_stay(
            text@,
            replacement@,
            out@,
        ),
{
    regex::Regex::new(pattern).unwrap().replace_all(text, replacement).to_string()
}

/// `log` with its points in time masked: dates with a time first, times of day in what is left.
pub open spec fn without_timestamps(log: Seq<char>) -> Seq<char> {
    let dated = replaced(DATE_TIME@, log, "[TIMESTAMP]"@);
    replaced(TIME_OF_DAY@, dated, "[TIME]"@)
}

/// Masks the dates and times in `log`, so that near-duplicates read the same.
pub fn strip_timestamps(log: &str) -> (masked: String)
    ensures
        masked@ == without_timestamps(log@),
        !has_time_colons(log@) ==> masked@ == log@,
        is_time(log@) ==> masked@ == "[TIME]"@,
        is_date_time(log@) ==> masked@ == "[TIMESTAMP]"@,
        !has_date_time(masked@),
        !has_lone_time(masked@),
        without_timestamps(masked@) == masked@,
        forall|a: Seq<char>, t: Seq<char>, b: Seq<char>|
            #[trigger] (a + t + b) == log@ && is_lone_time(a, t, b) ==> masked@ == without_timestamps(a)
                + "[TIME]"@ + without_timestamps(b),
        forall|a: Seq<char>, t: Seq<char>, b: Seq<char>|
            #[trigger] (a + t + b) == log@ && is_lone_date_time(a, t, b) ==> masked@
                == without_timestamps(a) + "[TIMESTAMP]"@ + without_timestamps(b),
{
    proof {
        reveal_strlit("[TIMESTAMP]");
        reveal_strlit("[TIME]");
        assert(is_mask("[TIMESTAMP]"@) && !has_time_colons("[TIMESTAMP]"@));
        assert(is_mask("[TIME]"@));
        if is_time(log@) {
            assert(!log@.contains('-'));
        }
    }
    let dated = replace_all(DATE_TIME, log, "[TIMESTAMP]");
    let masked = replace_all(TIME_OF_DAY, dated.as_str(), "[TIME]");
    proof {
        let day = "[TIMESTAMP]"@;
        let time = "[TIME]"@;
        assert(replaced(DATE_TIME@, masked@, day) == masked@);
        assert forall|a: Seq<char>, t: Seq<char>, b: Seq<char>| #[trigger] (a + t + b) == log@
            && is_lone_time(a, t, b) implies masked@ == without_timestamps(a) + time
            + without_timestamps(b) by {
            let x = replaced(DATE_TIME@, a, day);
            let y = replaced(DATE_TIME@, b, day);
            assert(x + t + y == dated@);
        }
        assert forall|a: Seq<char>, t: Seq<char>, b: Seq<char>| #[trigger] (a + t + b) == log@
            && is_lone_date_time(a, t, b) implies masked@ == without_timestamps(a) + day
            + without_timestamps(b) by {
            let x = replaced(DATE_TIME@, a, day);
            let y = replaced(DATE_TIME@, b, day);
            assert(x + day + y == dated@);
            assert(!day.contains(':'));
        }
    }
    masked
}

} // verus!

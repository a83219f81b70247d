//! Letter case and character classes, as the standard library defines them.
use vstd::prelude::*;
use vstd::utf8::is_ascii_chars;

verus! {

/// `str::to_lowercase` of a text.
pub uninterp spec fn lowercase(s: Seq<char>) -> Seq<char>;

/// `char::is_alphanumeric` of a character.
pub uninterp spec fn alphanumeric(c: char) -> bool;

/// An ASCII capital's small letter; any other character itself.
pub open spec fn ascii_lower(c: char) -> char {
    if 'A' <= c <= 'Z' {
        (c as u32 + 32) as char
    } else {
        c
    }
}

/// `ascii_lower` on a character.
pub fn small_letter(c: char) -> (small: char)
    ensures
        small == ascii_lower(c),
{
    if 'A' <= c && c <= 'Z' {
        (c as u8 + 32) as char
    } else {
        c
    }
}

/// A text with its ASCII capitals made small.
pub open spec fn folded(s: Seq<char>) -> Seq<char> {
    s.map_values(|c: char| ascii_lower(c))
}

/// `folded` on a slice.
pub fn fold(s: &[char]) -> (low: Vec<char>)
    ensures
        low@ == folded(s@),
{
    let mut low: Vec<char> = Vec::new();
    let mut i: usize = 0;
    while i < s.len()
        invariant
            i <= s@.len(),
            low@ == folded(s@.take(i as int)),
        decreases s@.len() - i,
    {
        low.push(small_letter(s[i]));
        assert(folded(s@.take(i + 1)) =~= folded(s@.take(i as int)).push(ascii_lower(s@[i as int])));
        i += 1;
    }
    assert(s@.take(i as int) =~= s@);
    low
}

/// The small letter of an ASCII capital and of the Kelvin sign, which are the characters whose lower case
/// is an ASCII letter; any other character itself.
pub open spec fn small_form(c: char) -> char {
    if c == '\u{212a}' {
        'k'
    } else {
        ascii_lower(c)
    }
}

/// A text with the small form of each character. It has an ASCII text where the lower case of the text has
/// it.
pub open spec fn lowered(s: Seq<char>) -> Seq<char> {
    s.map_values(|c: char| small_form(c))
}

/// `lowered` on a slice.
pub fn lower_all(s: &[char]) -> (low: Vec<char>)
    ensures
        low@ == lowered(s@),
{
    let mut low: Vec<char> = Vec::new();
    let mut i: usize = 0;
    while i < s.len()
        invariant
            i <= s@.len(),
            low@ == lowered(s@.take(i as int)),
        decreases s@.len() - i,
    {
        let c = if s[i] == '\u{212a}' {
            'k'
        } else {
            small_letter(s[i])
        };
        low.push(c);
        assert(lowered(s@.take(i + 1)) =~= lowered(s@.take(i as int)).push(small_form(s@[i as int])));
        i += 1;
    }
    assert(s@.take(i as int) =~= s@);
    low
}

/// The capital of an ASCII small letter, of the long s and of the dotless i, which are the characters
/// whose upper case is one ASCII letter; any other character itself.
pub open spec fn capital_form(c: char) -> char {
    if 'a' <= c <= 'z' {
        (c as u32 - 32) as char
    } else if c == '\u{17f}' {
        'S'
    } else if c == '\u{131}' {
        'I'
    } else {
        c
    }
}

/// A text with the capital form of each character.
pub open spec fn raised(s: Seq<char>) -> Seq<char> {
    s.map_values(|c: char| capital_form(c))
}

/// `raised` on a slice.
pub fn raise_all(s: &[char]) -> (up: Vec<char>)
    ensures
        up@ == raised(s@),
{
    let mut up: Vec<char> = Vec::new();
    let mut i: usize = 0;
    while i < s.len()
        invariant
            i <= s@.len(),
            up@ == raised(s@.take(i as int)),
        decreases s@.len() - i,
    {
        let c = s[i];
        let capital = if 'a' <= c && c <= 'z' {
            (c as u8 - 32) as char
        } else if c == '\u{17f}' {
            'S'
        } else if c == '\u{131}' {
            'I'
        } else {
            c
        };
        up.push(capital);
        assert(raised(s@.take(i + 1)) =~= raised(s@.take(i as int)).push(capital_form(c)));
        i += 1;
    }
    assert(s@.take(i as int) =~= s@);
    up
}

/// `str::to_lowercase` maps a text by Unicode's lower case mapping, which takes the capitals of an
/// ASCII text to their small letters and leaves the rest of it alone.
pub assume_specification[ str::to_lowercase ](s: &str) -> (lower: String)
    ensures
        lower@ == lowercase(s@),
        is_ascii_chars(s@) ==> lower@ == folded(s@),
;

/// `char::is_alphanumeric` tells Unicode's letters and numbers from other characters; among the ASCII
/// characters these are the letters and the ten digits.
pub assume_specification[ char::is_alphanumeric ](c: char) -> (yes: bool)
    ensures
        yes == alphanumeric(c),
        c <= '\u{7f}' ==> yes == ('0' <= c <= '9' || 'A' <= c <= 'Z' || 'a' <= c <= 'z'),
;

/// Whether a character is one of the ten ASCII digits.
pub open spec fn is_digit(c: char) -> bool {
    '0' <= c <= '9'
}

/// Whether all of `s` is ASCII digits.
pub open spec fn all_digits(s: Seq<char>) -> bool {
    forall|i: int| 0 <= i < s.len() ==> is_digit(#[trigger] s[i])
}

/// `is_digit` on a character.
pub fn ascii_digit(c: char) -> (yes: bool)
    ensures
        yes == is_digit(c),
{
    '0' <= c && c <= '9'
}

/// `all_digits` on a slice.
pub fn only_digits(s: &[char]) -> (yes: bool)
    ensures
        yes == all_digits(s@),
{
    let mut i: usize = 0;
    while i < s.len()
        invariant
            i <= s@.len(),
            forall|j: int| 0 <= j < i ==> is_digit(#[trigger] s@[j]),
        decreases s@.len() - i,
    {
        if !ascii_digit(s[i]) {
            assert(!is_digit(s@[i as int]));
            return false;
        }
        i += 1;
    }
    true
}

} // verus!

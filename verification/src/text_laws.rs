//! What trimming, splitting, joining and writing numbers come to.
use vstd::prelude::*;
use crate::casing::{ascii_lower, folded, is_digit, lowered, raised};
use crate::http_errors::is_status;
use crate::keywords::{alike, alike_at, holds};
use crate::memory::measured;
use crate::text::{
    contains, decimal, digits, first_words, is_space, join, lemma_find, prefix, stands_at, trim,
    trim_end, trim_start, words,
};

verus! {

/// Whether a text is nothing but white space.
pub open spec fn is_blank(s: Seq<char>) -> bool {
    forall|i: int| 0 <= i < s.len() ==> is_space(#[trigger] s[i])
}

/// Whether a text is empty or has no white space at either end.
pub open spec fn is_tight(s: Seq<char>) -> bool {
    s.len() == 0 || (!is_space(s[0]) && !is_space(s.last()))
}

/// Whether a text stands whole in another: in one piece, with something before it and behind it.
pub open spec fn is_part(part: Seq<char>, text: Seq<char>) -> bool {
    exists|a: Seq<char>, b: Seq<char>| text == #[trigger] (a + part + b)
}

/// What stands in a part of a text stands in the text.
pub proof fn lemma_part_of_part(a: Seq<char>, part: Seq<char>, b: Seq<char>, piece: Seq<char>)
    requires
        is_part(piece, part),
    ensures
        is_part(piece, a + part + b),
{
    let (c, d) = choose|c: Seq<char>, d: Seq<char>| part == #[trigger] (c + piece + d);
    assert(a + part + b =~= (a + c) + piece + (d + b));
}

/// A text contains another exactly where the other stands whole in it.
pub proof fn lemma_containing(text: Seq<char>, part: Seq<char>)
    ensures
        contains(text, part) <==> is_part(part, text),
{
    lemma_find(text, part);
    if contains(text, part) {
        let i = choose|i: int| stands_at(text, part, i);
        assert(text =~= text.take(i) + part + text.skip(i + part.len()));
    }
    if is_part(part, text) {
        let (a, b) = choose|a: Seq<char>, b: Seq<char>| text == #[trigger] (a + part + b);
        assert(text.subrange(a.len() as int, (a.len() + part.len()) as int) =~= part);
        assert(stands_at(text, part, a.len() as int));
    }
}

/// Trimming at the start takes white space away there, and all of it.
pub proof fn lemma_trim_start(s: Seq<char>) -> (n: int)
    ensures
        0 <= n <= s.len(),
        trim_start(s) == s.skip(n),
        is_blank(s.take(n)),
        n < s.len() ==> !is_space(s[n]),
    decreases s.len(),
{
    if s.len() > 0 && is_space(s[0]) {
        let rest = s.drop_first();
        let m = lemma_trim_start(rest);
        assert(rest.skip(m) =~= s.skip(m + 1));
        assert forall|i: int| 0 <= i < m + 1 implies is_space(#[trigger] s.take(m + 1)[i]) by {
            if i > 0 {
                assert(is_space(rest.take(m)[i - 1]));
            }
        }
        if m < rest.len() {
            assert(rest[m] == s[m + 1]);
        }
        m + 1
    } else {
        assert(s.skip(0) =~= s);
        0
    }
}

/// Trimming at the end takes white space away there, and all of it.
pub proof fn lemma_trim_end(s: Seq<char>) -> (n: int)
    ensures
        0 <= n <= s.len(),
        trim_end(s) == s.take(n),
        is_blank(s.skip(n)),
        n > 0 ==> !is_space(s[n - 1]),
    decreases s.len(),
{
    if s.len() > 0 && is_space(s.last()) {
        let rest = s.drop_last();
        let n = lemma_trim_end(rest);
        assert(rest.take(n) =~= s.take(n));
        assert forall|i: int| 0 <= i < s.skip(n).len() implies is_space(#[trigger] s.skip(n)[i]) by {
            if n + i < rest.len() {
                assert(is_space(rest.skip(n)[i]));
            }
        }
        n
    } else {
        assert(s.take(s.len() as int) =~= s);
        s.len() as int
    }
}

/// Trimming takes white space away at both ends, and all of it, and nothing else.
pub proof fn lemma_trim(s: Seq<char>)
    ensures
        exists|a: Seq<char>, b: Seq<char>|
            is_blank(a) && is_blank(b) && s == #[trigger] (a + trim(s) + b),
        is_tight(trim(s)),
        trim(s).len() == 0 <==> is_blank(s),
{
    let n = lemma_trim_start(s);
    let rest = s.skip(n);
    let m = lemma_trim_end(rest);
    let a = s.take(n);
    let b = rest.skip(m);
    assert(s =~= a + trim(s) + b);
    if m > 0 {
        assert(trim(s)[0] == s[n]);
        assert(trim(s).last() == rest[m - 1]);
        assert(!is_space(s[n]));
    } else {
        assert forall|i: int| 0 <= i < s.len() implies is_space(#[trigger] s[i]) by {
            if i < n {
                assert(is_space(a[i]));
            } else {
                assert(is_space(b[i - n]));
            }
        }
    }
}

/// Texts that differ only in white space around them are the same once trimmed.
pub proof fn lemma_trim_ignores_margins(a: Seq<char>, s: Seq<char>, b: Seq<char>)
    requires
        is_blank(a),
        is_blank(b),
        is_tight(s),
    ensures
        trim(a + s + b) == s,
{
    let text = a + s + b;
    let n = lemma_trim_start(text);
    let rest = text.skip(n);
    let m = lemma_trim_end(rest);
    if s.len() == 0 {
        assert forall|i: int| 0 <= i < text.len() implies is_space(#[trigger] text[i]) by {
            if i < a.len() {
                assert(is_space(a[i]));
            } else {
                assert(is_space(b[i - a.len()]));
            }
        }
        if n < text.len() {
            assert(is_space(text[n]));
        }
        assert(trim(text) =~= s);
    } else {
        let k = a.len() as int;
        assert(text[k] == s[0]);
        if n > k {
            assert(is_space(text.take(n)[k]));
        }
        if n < k {
            assert(is_space(a[n]));
        }
        assert(rest =~= s + b);
        let l = s.len() as int;
        assert(rest[l - 1] == s.last());
        if m < l {
            assert(is_space(rest.skip(m)[l - 1 - m]));
        }
        if m > l {
            assert(is_space(b[m - 1 - l]));
            assert(rest[m - 1] == b[m - 1 - l]);
        }
        assert(rest.take(m) =~= s);
    }
}

/// A text without white space is one word.
pub proof fn lemma_one_word(s: Seq<char>)
    requires
        s.len() > 0,
        forall|i: int| 0 <= i < s.len() ==> !is_space(#[trigger] s[i]),
    ensures
        words(s) == seq![s],
    decreases s.len(),
{
    assert(!is_space(s[s.len() - 1]));
    if s.len() == 1 {
        assert(s.drop_last().len() == 0);
        assert(words(s.drop_last()) =~= Seq::<Seq<char>>::empty());
        assert(s =~= seq![s.last()]);
        assert(words(s) == words(s.drop_last()).push(seq![s.last()]));
        assert(words(s) =~= seq![s]);
    } else {
        let front = s.drop_last();
        assert forall|i: int| 0 <= i < front.len() implies !is_space(#[trigger] front[i]) by {
            assert(!is_space(s[i]));
        }
        lemma_one_word(front);
        assert(!is_space(s[s.len() - 2]));
        let before = words(front);
        assert(before == seq![front]);
        assert(before.last().push(s.last()) =~= s);
        assert(words(s) == before.drop_last().push(before.last().push(s.last())));
        assert(before.drop_last().push(s) =~= seq![s]);
    }
}

/// White space parts words: the words of a text are those before it, then those behind it.
pub proof fn lemma_words_parted(a: Seq<char>, c: char, b: Seq<char>)
    requires
        is_space(c),
    ensures
        words(a + seq![c] + b) == words(a) + words(b),
        words(Seq::<char>::empty()).len() == 0,
    decreases b.len(),
{
    let text = a + seq![c] + b;
    if b.len() == 0 {
        assert(text.drop_last() =~= a);
        assert(text.last() == c);
        assert(words(text) =~= words(a) + words(b));
    } else {
        let front = b.drop_last();
        lemma_words_parted(a, c, front);
        assert(text.drop_last() =~= a + seq![c] + front);
        assert(text.last() == b.last());
        if is_space(b.last()) {
            assert(words(text) =~= words(a) + words(b));
        } else if b.len() == 1 {
            assert(text[text.len() - 2] == c);
            assert(words(text) =~= words(a) + words(b));
        } else {
            assert(text[text.len() - 2] == b[b.len() - 2]);
            if is_space(b[b.len() - 2]) {
                assert(words(text) =~= words(a) + words(b));
            } else {
                lemma_some_word(front);
                assert(words(text) =~= words(a) + words(b));
            }
        }
    }
}

/// A text that does not end in white space has a word.
proof fn lemma_some_word(s: Seq<char>)
    requires
        s.len() > 0,
        !is_space(s.last()),
    ensures
        words(s).len() > 0,
{
}

/// Joining adds each further part behind a separator, and nothing else.
pub proof fn lemma_join_further(parts: Seq<Seq<char>>, part: Seq<char>, separator: Seq<char>)
    ensures
        join(Seq::<Seq<char>>::empty(), separator).len() == 0,
        join(seq![part], separator) == part,
        parts.len() > 0 ==> join(parts.push(part), separator) == join(parts, separator) + separator
            + part,
{
    assert(parts.push(part).drop_last() =~= parts);
}

/// The first words of a text, where it has no more than that, are all its words.
pub proof fn lemma_first_words(s: Seq<char>, n: int)
    requires
        0 <= n,
    ensures
        words(s).len() <= n ==> first_words(s, n) == join(words(s), " "@),
        words(s).len() > n ==> first_words(s, n) == join(words(s).take(n), " "@),
{
}

/// The start of a text is as long as it may be, and is what the text starts with.
pub proof fn lemma_prefix(s: Seq<char>, n: int)
    requires
        0 <= n,
    ensures
        prefix(s, n).len() == if s.len() < n {
            s.len() as int
        } else {
            n
        },
        prefix(s, n).is_prefix_of(s),
{
    assert(prefix(s, n) =~= s.take(prefix(s, n).len() as int));
}

/// The number that decimal digits stand for.
pub open spec fn value_of(s: Seq<char>) -> int
    decreases s.len(),
{
    if s.len() == 0 {
        0
    } else {
        10 * value_of(s.drop_last()) + (s.last() as int - '0' as int)
    }
}

/// The digits of a number stand for it, are digits, and do not start with a zero but for zero itself.
proof fn lemma_digits_read(n: nat)
    ensures
        value_of(digits(n)) == n,
        digits(n).len() > 0,
        forall|i: int| 0 <= i < digits(n).len() ==> '0' <= #[trigger] digits(n)[i] <= '9',
        n > 0 ==> digits(n)[0] != '0',
        n < 10 ==> digits(n).len() == 1,
    decreases n,
{
    if n < 10 {
        let s = digits(n);
        assert(s.drop_last() =~= Seq::<char>::empty());
        assert(value_of(s.drop_last()) == 0);
    } else {
        let front = digits(n / 10);
        lemma_digits_read(n / 10);
        assert(digits(n).drop_last() =~= front);
        assert(digits(n)[0] == front[0]);
        assert forall|i: int| 0 <= i < digits(n).len() implies '0' <= #[trigger] digits(n)[i] <= '9' by {
            if i < front.len() {
                assert(digits(n)[i] == front[i]);
            }
        }
    }
}

/// A number written in decimal reads back as itself: a minus sign where it is negative, then its digits,
/// the first of which is a zero only for zero.
pub proof fn lemma_decimal_reads_back(n: int)
    ensures
        n >= 0 ==> value_of(decimal(n)) == n,
        n < 0 ==> decimal(n).len() > 1 && decimal(n)[0] == '-' && value_of(decimal(n).skip(1)) == -n,
        n >= 0 ==> forall|i: int|
            0 <= i < decimal(n).len() ==> '0' <= #[trigger] decimal(n)[i] <= '9',
        n > 0 ==> decimal(n)[0] != '0',
        0 <= n < 10 ==> decimal(n).len() == 1,
{
    if n < 0 {
        lemma_digits_read((-n) as nat);
        assert(decimal(n).skip(1) =~= digits((-n) as nat));
    } else {
        lemma_digits_read(n as nat);
    }
}

/// Folding makes ASCII capitals small and leaves every other character alone.
pub proof fn lemma_folded(s: Seq<char>, i: int)
    requires
        0 <= i < s.len(),
    ensures
        folded(s).len() == s.len(),
        'A' <= s[i] <= 'Z' ==> folded(s)[i] as int == s[i] as int + 32,
        !('A' <= s[i] <= 'Z') ==> folded(s)[i] == s[i],
{
}

/// Lowering makes ASCII capitals small, takes the Kelvin sign for a `k`, and leaves every other character
/// alone.
pub proof fn lemma_lowered(s: Seq<char>, i: int)
    requires
        0 <= i < s.len(),
    ensures
        lowered(s).len() == s.len(),
        'A' <= s[i] <= 'Z' ==> lowered(s)[i] as int == s[i] as int + 32,
        s[i] == '\u{212a}' ==> lowered(s)[i] == 'k',
        !('A' <= s[i] <= 'Z') && s[i] != '\u{212a}' ==> lowered(s)[i] == s[i],
{
}

/// Raising makes ASCII small letters capital, takes the long s for an `S` and the dotless i for an `I`, and
/// leaves every other character alone.
pub proof fn lemma_raised(s: Seq<char>, i: int)
    requires
        0 <= i < s.len(),
    ensures
        raised(s).len() == s.len(),
        'a' <= s[i] <= 'z' ==> raised(s)[i] as int == s[i] as int - 32,
        s[i] == '\u{17f}' ==> raised(s)[i] == 'S',
        s[i] == '\u{131}' ==> raised(s)[i] == 'I',
        !('a' <= s[i] <= 'z') && s[i] != '\u{17f}' && s[i] != '\u{131}' ==> raised(s)[i] == s[i],
{
}

/// The characters that count as white space: the ASCII ones, and the others of Unicode's property.
pub proof fn lemma_white_space(c: char)
    ensures
        is_space(c) <==> {
            ||| c == ' ' || c == '\t' || c == '\n' || c == '\r' || c == '\u{b}' || c == '\u{c}'
            ||| c == '\u{85}' || c == '\u{a0}' || c == '\u{1680}'
            ||| '\u{2000}' <= c <= '\u{200a}'
            ||| c == '\u{2028}' || c == '\u{2029}' || c == '\u{202f}' || c == '\u{205f}' || c
                == '\u{3000}'
        },
{
}

/// A text holds a key exactly where its folded form holds the folded key.
pub proof fn lemma_holds_is_containing(text: Seq<char>, key: Seq<char>)
    ensures
        holds(text, key) <==> contains(folded(text), folded(key)),
{
    let t = folded(text);
    let k = folded(key);
    lemma_find(t, k);
    if holds(text, key) {
        let i = choose|i: int| alike_at(text, key, i);
        assert forall|j: int| 0 <= j < key.len() implies t.subrange(i, i + k.len())[j] == k[j] by {
            assert(ascii_lower(key[j]) == ascii_lower(text[i + j]));
        }
        assert(t.subrange(i, i + k.len()) =~= k);
        assert(stands_at(t, k, i));
    }
    if contains(t, k) {
        let i = choose|i: int| stands_at(t, k, i);
        assert forall|j: int| 0 <= j < key.len() implies alike(
            #[trigger] key[j],
            text[i + j],
        ) by {
            assert(t.subrange(i, i + k.len())[j] == k[j]);
        }
        assert(alike_at(text, key, i));
    }
}

/// Any part of a text is held by it.
pub proof fn lemma_parts_are_held(a: Seq<char>, key: Seq<char>, b: Seq<char>)
    ensures
        holds(a + key + b, key),
        contains(a + key + b, key),
{
    let text = a + key + b;
    let i = a.len() as int;
    assert(text.subrange(i, i + key.len()) =~= key);
    assert(stands_at(text, key, i));
    lemma_find(text, key);
    assert forall|j: int| 0 <= j < key.len() implies alike(
        #[trigger] key[j],
        text[i + j],
    ) by {
        assert(text[i + j] == key[j]);
    }
    assert(alike_at(text, key, i));
}

/// A log is measured up to its first NUL, or to its end.
pub proof fn lemma_measured(a: Seq<char>, b: Seq<char>)
    requires
        forall|i: int| 0 <= i < a.len() ==> #[trigger] a[i] != '\0',
        b.len() == 0 || b[0] == '\0',
    ensures
        measured(a + b) == a.len(),
    decreases a.len(),
{
    let s = a + b;
    if a.len() == 0 {
        assert(s =~= b);
    } else {
        assert(s[0] == a[0]);
        assert(s.drop_first() =~= a.drop_first() + b);
        assert forall|i: int| 0 <= i < a.drop_first().len() implies #[trigger] a.drop_first()[i]
            != '\0' by {
            assert(a[i + 1] != '\0');
        }
        lemma_measured(a.drop_first(), b);
    }
}

/// A text is an HTTP status exactly where it is three digits that stand for a number from 100 to 599.
pub proof fn lemma_status(s: Seq<char>)
    ensures
        is_status(s) <==> s.len() == 3 && (forall|i: int|
            0 <= i < s.len() ==> '0' <= #[trigger] s[i] <= '9') && 100 <= value_of(s) <= 599,
{
    if s.len() == 3 {
        reveal_with_fuel(value_of, 4);
        assert(s.drop_last().last() == s[1]);
        assert(s.drop_last().drop_last().last() == s[0]);
        assert(value_of(s) == 100 * (s[0] as int - 48) + 10 * (s[1] as int - 48) + (s[2] as int - 48));
        if is_status(s) {
            assert(is_digit(s[0]) && is_digit(s[1])
                && is_digit(s[2]));
        }
        if forall|i: int| 0 <= i < s.len() ==> '0' <= #[trigger] s[i] <= '9' {
            assert('0' <= s[0] <= '9' && '0' <= s[1] <= '9' && '0' <= s[2] <= '9');
        }
    }
}

} // verus!

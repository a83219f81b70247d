//! Text as sequences of characters: trimming, searching, splitting and joining.
use vstd::prelude::*;
use vstd::slice::slice_subrange;
use vstd::utf8::encode_utf8;

verus! {

/// The characters with the Unicode property `White_Space`.
pub open spec fn is_space(c: char) -> bool {
    let n = c as u32;
    ||| 0x9 <= n <= 0xd
    ||| n == 0x20 || n == 0x85 || n == 0xa0 || n == 0x1680
    ||| 0x2000 <= n <= 0x200a
    ||| n == 0x2028 || n == 0x2029 || n == 0x202f || n == 0x205f || n == 0x3000
}

/// `char::is_whitespace` tells whether a character has the property `White_Space`.
pub assume_specification[ char::is_whitespace ](c: char) -> (space: bool)
    ensures
        space == is_space(c),
;

/// `String::push` appends one character.
pub assume_specification[ String::push ](s: &mut String, c: char)
    ensures
        final(s)@ == old(s)@.push(c),
;

/// `s` without the white space it starts with.
pub open spec fn trim_start(s: Seq<char>) -> Seq<char>
    decreases s.len(),
{
    if s.len() > 0 && is_space(s[0]) {
        trim_start(s.drop_first())
    } else {
        s
    }
}

/// `s` without the white space it ends with.
pub open spec fn trim_end(s: Seq<char>) -> Seq<char>
    decreases s.len(),
{
    if s.len() > 0 && is_space(s.last()) {
        trim_end(s.drop_last())
    } else {
        s
    }
}

/// `s` without the white space at either end.
pub open spec fn trim(s: Seq<char>) -> Seq<char> {
    trim_end(trim_start(s))
}

/// The characters of `s`.
pub fn chars_of(s: &str) -> (chars: Vec<char>)
    ensures
        chars@ == s@,
{
    let mut chars: Vec<char> = Vec::new();
    for c in iter: s.chars()
        invariant
            iter.seq() == s@,
            chars@ == s@.take(iter.index() as int),
    {
        chars.push(c);
        assert(s@.take(iter.index() + 1) =~= s@.take(iter.index() as int).push(c));
    }
    assert(s@.take(s@.len() as int) =~= s@);
    chars
}

/// The string made of `chars`.
pub fn text_of(chars: &[char]) -> (s: String)
    ensures
        s@ == chars@,
{
    let mut s = String::new();
    let mut i: usize = 0;
    while i < chars.len()
        invariant
            i <= chars@.len(),
            s@ == chars@.take(i as int),
        decreases chars@.len() - i,
    {
        s.push(chars[i]);
        assert(chars@.take(i + 1) =~= chars@.take(i as int).push(chars@[i as int]));
        i += 1;
    }
    assert(chars@.take(chars@.len() as int) =~= chars@);
    s
}

/// `trim_start` on a slice.
pub fn trimmed_start(s: &[char]) -> (t: &[char])
    ensures
        t@ == trim_start(s@),
{
    let mut i: usize = 0;
    assert(s@.skip(0) =~= s@);
    while i < s.len() && s[i].is_whitespace()
        invariant
            i <= s@.len(),
            trim_start(s@) == trim_start(s@.skip(i as int)),
        decreases s@.len() - i,
    {
        assert(s@.skip(i as int).drop_first() =~= s@.skip(i + 1));
        i += 1;
    }
    let t = slice_subrange(s, i, s.len());
    assert(t@ =~= s@.skip(i as int));
    t
}

/// `trim_end` on a slice.
pub fn trimmed_end(s: &[char]) -> (t: &[char])
    ensures
        t@ == trim_end(s@),
{
    let mut n: usize = s.len();
    assert(s@.take(n as int) =~= s@);
    while n > 0 && s[n - 1].is_whitespace()
        invariant
            n <= s@.len(),
            trim_end(s@) == trim_end(s@.take(n as int)),
        decreases n,
    {
        assert(s@.take(n as int).drop_last() =~= s@.take(n - 1));
        n -= 1;
    }
    let t = slice_subrange(s, 0, n);
    assert(t@ =~= s@.take(n as int));
    t
}

/// `trim` on a slice.
pub fn trimmed(s: &[char]) -> (t: &[char])
    ensures
        t@ == trim(s@),
{
    trimmed_end(trimmed_start(s))
}

/// `trim` on a string.
pub fn trimmed_text(s: &str) -> (t: String)
    ensures
        t@ == trim(s@),
{
    let chars = chars_of(s);
    text_of(trimmed(chars.as_slice()))
}

/// The decimal digit for `d`.
pub open spec fn digit(d: int) -> char {
    (48 + d) as char
}

/// The decimal digits of `n`, without leading zeros.
pub open spec fn digits(n: nat) -> Seq<char>
    decreases n,
{
    if n < 10 {
        seq![digit(n as int)]
    } else {
        digits(n / 10).push(digit((n % 10) as int))
    }
}

/// `n` in decimal, with a minus sign where it is negative.
pub open spec fn decimal(n: int) -> Seq<char> {
    if n < 0 {
        seq!['-'] + digits((-n) as nat)
    } else {
        digits(n as nat)
    }
}

/// Appends the digits of `n`.
fn push_digits(s: &mut String, n: u64)
    ensures
        final(s)@ == old(s)@ + digits(n as nat),
    decreases n,
{
    if n >= 10 {
        push_digits(s, n / 10);
    }
    let d: u8 = (n % 10) as u8;
    s.push((48 + d) as char);
    assert(s@ =~= old(s)@ + digits(n as nat));
}

/// Appends a count in decimal.
pub fn push_count(s: &mut String, n: usize)
    ensures
        final(s)@ == old(s)@ + decimal(n as int),
{
    push_digits(s, n as u64);
}

/// Appends `n` in decimal.
pub fn push_decimal(s: &mut String, n: i64)
    ensures
        final(s)@ == old(s)@ + decimal(n as int),
{
    if n < 0 {
        s.push('-');
        let m: u64 = (-(n + 1)) as u64 + 1;
        push_digits(s, m);
        assert(s@ =~= old(s)@ + decimal(n as int));
    } else {
        push_digits(s, n as u64);
    }
}

/// Whether `p` stands in `s` at index `i`.
pub open spec fn stands_at(s: Seq<char>, p: Seq<char>, i: int) -> bool {
    &&& 0 <= i <= s.len() - p.len()
    &&& s.subrange(i, i + p.len()) == p
}

/// The first index from `i` on at which `p` stands in `s`.
pub open spec fn find_from(s: Seq<char>, p: Seq<char>, i: int) -> Option<int>
    decreases s.len() - i + 1,
{
    if i < 0 || s.len() < i + p.len() {
        None
    } else if stands_at(s, p, i) {
        Some(i)
    } else {
        find_from(s, p, i + 1)
    }
}

/// The first index at which `p` stands in `s`.
pub open spec fn find(s: Seq<char>, p: Seq<char>) -> Option<int> {
    find_from(s, p, 0)
}

/// Whether `p` stands anywhere in `s`.
pub open spec fn contains(s: Seq<char>, p: Seq<char>) -> bool {
    find(s, p) is Some
}

/// Where `find_from` gives an index, `p` stands there and nowhere before; where it gives none, `p`
/// stands nowhere.
proof fn lemma_find_from(s: Seq<char>, p: Seq<char>, i: int)
    requires
        0 <= i,
    ensures
        match find_from(s, p, i) {
            Some(k) => {
                &&& i <= k
                &&& stands_at(s, p, k)
                &&& forall|j: int| i <= j < k ==> !stands_at(s, p, j)
            },
            None => forall|j: int| i <= j ==> !stands_at(s, p, j),
        },
    decreases s.len() - i + 1,
{
    if i + p.len() <= s.len() && !stands_at(s, p, i) {
        lemma_find_from(s, p, i + 1);
    }
}

/// Searching finds the first occurrence: `find` gives an index exactly where the pattern occurs,
/// the pattern stands at that index, and it stands at none before.
pub proof fn lemma_find(s: Seq<char>, p: Seq<char>)
    ensures
        contains(s, p) <==> (exists|i: int| stands_at(s, p, i)),
        find(s, p) matches Some(k) ==> {
            &&& stands_at(s, p, k)
            &&& forall|j: int| 0 <= j < k ==> !stands_at(s, p, j)
        },
{
    lemma_find_from(s, p, 0);
}

/// Whether `p` stands in `s` at index `i`.
fn matches_at(s: &[char], p: &[char], i: usize) -> (yes: bool)
    requires
        i + p@.len() <= s@.len(),
    ensures
        yes == stands_at(s@, p@, i as int),
{
    let n: usize = s.len();
    let mut k: usize = 0;
    while k < p.len()
        invariant
            k <= p@.len(),
            i + p@.len() <= s@.len(),
            n == s@.len(),
            forall|j: int| 0 <= j < k ==> s@[i + j] == p@[j],
        decreases p@.len() - k,
    {
        if s[i + k] != p[k] {
            assert(s@.subrange(i as int, i + p@.len())[k as int] != p@[k as int]);
            return false;
        }
        k += 1;
    }
    assert(s@.subrange(i as int, i + p@.len()) =~= p@);
    true
}

/// `find` on a slice.
pub fn position_of(s: &[char], pattern: &str) -> (at: Option<usize>)
    ensures
        match at {
            Some(i) => {
                &&& find(s@, pattern@) == Some(i as int)
                &&& i + pattern@.len() <= s@.len() <= usize::MAX
            },
            None => find(s@, pattern@) is None,
        },
{
    let p = chars_of(pattern);
    if p.len() > s.len() {
        return None;
    }
    let n: usize = s.len();
    let last: usize = n - p.len();
    let mut i: usize = 0;
    loop
        invariant
            n == s@.len(),
            p@ == pattern@,
            last + p@.len() == s@.len(),
            i <= last,
            find(s@, p@) == find_from(s@, p@, i as int),
        decreases last - i,
    {
        if matches_at(s, p.as_slice(), i) {
            return Some(i);
        }
        if i == last {
            assert(find_from(s@, p@, i + 1) is None);
            return None;
        }
        i += 1;
    }
}

/// `contains` on a slice.
pub fn has(s: &[char], pattern: &str) -> (yes: bool)
    ensures
        yes == contains(s@, pattern@),
{
    position_of(s, pattern).is_some()
}

/// Whether `s` starts with `p`.
pub open spec fn starts_with(s: Seq<char>, p: Seq<char>) -> bool {
    stands_at(s, p, 0)
}

/// `starts_with` on a slice.
pub fn begins_with(s: &[char], pattern: &str) -> (yes: bool)
    ensures
        yes == starts_with(s@, pattern@),
{
    let p = chars_of(pattern);
    p.len() <= s.len() && matches_at(s, p.as_slice(), 0)
}

/// Whether two strings hold the same characters.
pub fn same_text(a: &str, b: &str) -> (same: bool)
    ensures
        same == (a@ == b@),
{
    a.to_owned() == b.to_owned()
}

/// `s` from its `i`-th character on.
pub fn tail(s: &[char], i: usize) -> (t: &[char])
    requires
        i <= s@.len(),
    ensures
        t@ == s@.skip(i as int),
{
    let t = slice_subrange(s, i, s.len());
    assert(t@ =~= s@.skip(i as int));
    t
}

/// The first `n` characters of `s`, or all of it where it is shorter.
pub open spec fn prefix(s: Seq<char>, n: int) -> Seq<char> {
    if s.len() <= n {
        s
    } else {
        s.take(n)
    }
}

/// `prefix` on a slice.
pub fn head(s: &[char], n: usize) -> (t: &[char])
    ensures
        t@ == prefix(s@, n as int),
{
    if s.len() <= n {
        s
    } else {
        let t = slice_subrange(s, 0, n);
        assert(t@ =~= s@.take(n as int));
        t
    }
}

/// The words of `s`: its longest runs of characters that are not white space.
pub open spec fn words(s: Seq<char>) -> Seq<Seq<char>>
    decreases s.len(),
{
    if s.len() == 0 {
        seq![]
    } else {
        let before = words(s.drop_last());
        let c = s.last();
        if is_space(c) {
            before
        } else if s.len() == 1 || is_space(s[s.len() - 2]) {
            before.push(seq![c])
        } else {
            before.drop_last().push(before.last().push(c))
        }
    }
}

/// The texts that a list of character vectors holds.
pub open spec fn texts(parts: Seq<Vec<char>>) -> Seq<Seq<char>> {
    Seq::new(parts.len(), |i: int| parts[i]@)
}

/// `words` on a slice.
pub fn split_words(s: &[char]) -> (parts: Vec<Vec<char>>)
    ensures
        texts(parts@) == words(s@),
{
    let mut parts: Vec<Vec<char>> = Vec::new();
    let mut word: Vec<char> = Vec::new();
    let mut i: usize = 0;
    while i < s.len()
        invariant
            i <= s@.len(),
            word@.len() == 0 <==> i == 0 || is_space(s@[i - 1]),
            words(s@.take(i as int)) == if word@.len() == 0 {
                texts(parts@)
            } else {
                texts(parts@).push(word@)
            },
        decreases s@.len() - i,
    {
        let c = s[i];
        let ghost so_far = s@.take(i + 1);
        assert(so_far.drop_last() =~= s@.take(i as int));
        assert(so_far.last() == c);
        assert(i > 0 ==> so_far[so_far.len() - 2] == s@[i - 1]);
        if c.is_whitespace() {
            if word.len() > 0 {
                let ghost done = texts(parts@);
                parts.push(word);
                word = Vec::new();
                assert(texts(parts@) =~= done.push(parts@.last()@));
            }
        } else {
            let ghost old_word = word@;
            word.push(c);
            assert(old_word.len() == 0 ==> word@ =~= seq![c]);
            assert(old_word.len() > 0 ==> texts(parts@).push(old_word).drop_last() =~= texts(
                parts@,
            ));
        }
        i += 1;
    }
    assert(s@.take(i as int) =~= s@);
    if word.len() > 0 {
        let ghost done = texts(parts@);
        parts.push(word);
        assert(texts(parts@) =~= done.push(parts@.last()@));
    }
    parts
}

/// `parts` one after the other, with `separator` between neighbours.
pub open spec fn join(parts: Seq<Seq<char>>, separator: Seq<char>) -> Seq<char>
    decreases parts.len(),
{
    if parts.len() == 0 {
        seq![]
    } else if parts.len() == 1 {
        parts[0]
    } else {
        join(parts.drop_last(), separator) + separator + parts.last()
    }
}

/// The first `n` of `parts`, or all of them where there are fewer.
pub open spec fn first_of(parts: Seq<Seq<char>>, n: int) -> Seq<Seq<char>> {
    if parts.len() <= n {
        parts
    } else {
        parts.take(n)
    }
}

/// The first `n` words of `s`, joined by single spaces.
pub open spec fn first_words(s: Seq<char>, n: int) -> Seq<char> {
    join(first_of(words(s), n), " "@)
}

/// The first `n` of `parts`, joined by single spaces.
pub fn join_first(parts: &Vec<Vec<char>>, n: usize) -> (s: String)
    ensures
        s@ == join(first_of(texts(parts@), n as int), " "@),
{
    let count: usize = if parts.len() <= n {
        parts.len()
    } else {
        n
    };
    let ghost all = texts(parts@);
    let mut s = String::new();
    let mut i: usize = 0;
    while i < count
        invariant
            i <= count <= parts@.len(),
            all == texts(parts@),
            s@ == join(all.take(i as int), " "@),
        decreases count - i,
    {
        if i > 0 {
            s.append(" ");
        }
        s.append(text_of(parts[i].as_slice()).as_str());
        let ghost next = all.take(i + 1);
        assert(next.drop_last() =~= all.take(i as int));
        assert(next.last() == all[i as int]);
        assert(s@ =~= join(next, " "@));
        i += 1;
    }
    assert(all.take(all.len() as int) =~= all);
    s
}

/// `first_words` on a slice.
pub fn leading_words(s: &[char], n: usize) -> (t: String)
    ensures
        t@ == first_words(s@, n as int),
{
    join_first(&split_words(s), n)
}

/// The text of a string that may be missing.
pub open spec fn shown(s: Option<String>) -> Option<Seq<char>> {
    match s {
        Some(t) => Some(t@),
        None => None,
    }
}

/// The text of a string slice that may be missing.
pub open spec fn given(s: Option<&str>) -> Option<Seq<char>> {
    match s {
        Some(t) => Some(t@),
        None => None,
    }
}

/// A string with the text of a slice that may be missing.
pub fn owned(s: Option<&str>) -> (t: Option<String>)
    ensures
        shown(t) == given(s),
{
    match s {
        Some(text) => Some(text.to_owned()),
        None => None,
    }
}

/// The texts of a list of string slices.
pub open spec fn names(list: Seq<&'static str>) -> Seq<Seq<char>> {
    Seq::new(list.len(), |i: int| list[i]@)
}

/// The texts of a list of strings.
pub open spec fn strings(list: Seq<String>) -> Seq<Seq<char>> {
    Seq::new(list.len(), |i: int| list[i]@)
}

/// The number of bytes that `s` takes in UTF-8.
pub open spec fn byte_len(s: Seq<char>) -> nat {
    encode_utf8(s).len()
}

/// `byte_len` on a string.
pub fn size(s: &str) -> (n: usize)
    ensures
        n == byte_len(s@),
{
    s.as_bytes().len()
}

/// Two texts, one after the other.
pub fn pair(a: &str, b: &str) -> (s: String)
    ensures
        s@ == a@ + b@,
{
    let mut s = a.to_owned();
    s.append(b);
    s
}

/// Three texts, one after the other.
pub fn concat(a: &str, b: &str, c: &str) -> (s: String)
    ensures
        s@ == a@ + b@ + c@,
{
    let mut s = String::new();
    s.append(a);
    s.append(b);
    s.append(c);
    assert(s@ =~= a@ + b@ + c@);
    s
}

/// The first word of `s`, or nothing where it has none.
pub open spec fn first_word(s: Seq<char>) -> Seq<char> {
    if words(s).len() == 0 {
        seq![]
    } else {
        words(s)[0]
    }
}

/// `first_word` on a slice.
pub fn leading_word(s: &[char]) -> (t: String)
    ensures
        t@ == first_word(s@),
{
    let parts = split_words(s);
    assert(texts(parts@).len() == parts@.len());
    if parts.len() == 0 {
        String::new()
    } else {
        text_of(parts[0].as_slice())
    }
}

} // verus!

//! What a log says of HTTP errors.
use vstd::prelude::*;
use vstd::slice::slice_subrange;
use crate::casing::{all_digits, alphanumeric, ascii_digit, is_digit, only_digits};
use crate::text::{
    chars_of, concat, first_of, join, join_first, pair, shown, split_words, text_of, texts, words,
};
use crate::timestamps::{strip_timestamps, without_timestamps};

verus! {

/// The characters that a word is trimmed down to.
pub enum Core {
    /// ASCII digits.
    Digits,
    /// Letters, numbers and the hyphen.
    Letters,
}

impl Core {
    /// Whether trimming stops at `c`.
    pub open spec fn keeps(self, c: char) -> bool {
        match self {
            Core::Digits => is_digit(c),
            Core::Letters => alphanumeric(c) || c == '-',
        }
    }

    /// `keeps` on a character.
    fn stops_at(&self, c: char) -> (stops: bool)
        ensures
            stops == self.keeps(c),
    {
        match self {
            Core::Digits => ascii_digit(c),
            Core::Letters => c.is_alphanumeric() || c == '-',
        }
    }
}

/// `word` from the first character on that `core` keeps.
pub open spec fn core_start(word: Seq<char>, core: Core) -> Seq<char>
    decreases word.len(),
{
    if word.len() > 0 && !core.keeps(word[0]) {
        core_start(word.drop_first(), core)
    } else {
        word
    }
}

/// `word` up to the last character that `core` keeps.
pub open spec fn core_end(word: Seq<char>, core: Core) -> Seq<char>
    decreases word.len(),
{
    if word.len() > 0 && !core.keeps(word.last()) {
        core_end(word.drop_last(), core)
    } else {
        word
    }
}

/// `word` without what `core` does not keep at either end.
pub open spec fn trimmed_to(word: Seq<char>, core: Core) -> Seq<char> {
    core_end(core_start(word, core), core)
}

/// `trimmed_to` on a slice.
fn trim_to(word: &[char], core: Core) -> (t: Vec<char>)
    ensures
        t@ == trimmed_to(word@, core),
{
    let mut i: usize = 0;
    assert(word@.skip(0) =~= word@);
    while i < word.len() && !core.stops_at(word[i])
        invariant
            i <= word@.len(),
            core_start(word@, core) == core_start(word@.skip(i as int), core),
        decreases word@.len() - i,
    {
        assert(word@.skip(i as int).drop_first() =~= word@.skip(i + 1));
        i += 1;
    }
    let s = slice_subrange(word, i, word.len());
    assert(s@ =~= word@.skip(i as int));
    let mut n: usize = s.len();
    assert(s@.take(n as int) =~= s@);
    while n > 0 && !core.stops_at(s[n - 1])
        invariant
            n <= s@.len(),
            core_end(s@, core) == core_end(s@.take(n as int), core),
        decreases n,
    {
        assert(s@.take(n as int).drop_last() =~= s@.take(n - 1));
        n -= 1;
    }
    let t = slice_subrange(s, 0, n);
    assert(t@ =~= s@.take(n as int));
    let chars = chars_of(text_of(t).as_str());
    chars
}

/// The words of `parts` trimmed down to letters, without those of which nothing is left.
pub open spec fn cleaned(parts: Seq<Seq<char>>) -> Seq<Seq<char>>
    decreases parts.len(),
{
    if parts.len() == 0 {
        seq![]
    } else {
        let before = cleaned(parts.drop_last());
        let word = trimmed_to(parts.last(), Core::Letters);
        if word.len() == 0 {
            before
        } else {
            before.push(word)
        }
    }
}

/// What stands behind the status in `parts[i]`: the next three words, cleaned, joined by spaces.
pub open spec fn status_message(parts: Seq<Seq<char>>, i: int) -> Seq<char> {
    join(cleaned(first_of(parts.skip(i + 1), 3)), " "@)
}

/// Whether `s` is a status from 100 to 599.
pub open spec fn is_status(s: Seq<char>) -> bool {
    s.len() == 3 && all_digits(s) && '1' <= s[0] <= '5'
}

/// The first word from the `i`-th on that is a status but for what surrounds its digits, with what
/// stands behind it.
pub open spec fn http_error_from(parts: Seq<Seq<char>>, i: int) -> Option<Seq<char>>
    decreases parts.len() - i,
{
    if i < 0 || i >= parts.len() {
        None
    } else {
        let status = trimmed_to(parts[i], Core::Digits);
        if is_status(status) {
            let message = without_timestamps(status_message(parts, i));
            Some("HTTP "@ + status + " "@ + message)
        } else {
            http_error_from(parts, i + 1)
        }
    }
}

/// The first HTTP status among the words of a log, with what stands behind it.
pub open spec fn http_error(log: Seq<char>) -> Option<Seq<char>> {
    http_error_from(words(log), 0)
}

/// `status_message` on a list.
fn message_behind(parts: &Vec<Vec<char>>, i: usize) -> (message: String)
    requires
        i < parts@.len(),
    ensures
        message@ == status_message(texts(parts@), i as int),
{
    let ghost all = texts(parts@);
    let ghost next = first_of(all.skip(i + 1), 3);
    let end: usize = if parts.len() - i <= 4 {
        parts.len()
    } else {
        i + 4
    };
    assert(next =~= all.subrange(i + 1, end as int));
    let mut kept: Vec<Vec<char>> = Vec::new();
    let mut k: usize = i + 1;
    assert(next.take(0) =~= seq![]);
    while k < end
        invariant
            i + 1 <= k <= end <= parts@.len(),
            all == texts(parts@),
            next == all.subrange(i + 1, end as int),
            texts(kept@) == cleaned(next.take(k - i - 1)),
        decreases end - k,
    {
        let word = trim_to(parts[k].as_slice(), Core::Letters);
        let ghost done = texts(kept@);
        let ghost now = next.take(k - i);
        assert(now.drop_last() =~= next.take(k - i - 1));
        assert(now.last() == parts@[k as int]@);
        if word.len() > 0 {
            kept.push(word);
            assert(texts(kept@) =~= done.push(word@));
        }
        k += 1;
    }
    assert(next.take(k - i - 1) =~= next);
    let n: usize = kept.len();
    join_first(&kept, n)
}

/// Extracts an HTTP error such as `HTTP 503 Service Unavailable`.
pub fn extract_http_error(log: &str) -> (found: Option<String>)
    ensures
        shown(found) == http_error(log@),
{
    let parts = split_words(chars_of(log).as_slice());
    let ghost all = texts(parts@);
    let mut i: usize = 0;
    while i < parts.len()
        invariant
            i <= parts@.len(),
            all == texts(parts@),
            all == words(log@),
            http_error(log@) == http_error_from(all, i as int),
        decreases parts@.len() - i,
    {
        assert(all[i as int] == parts@[i as int]@);
        let status = trim_to(parts[i].as_slice(), Core::Digits);
        if status.len() == 3 && only_digits(status.as_slice()) && '1' <= status[0] && status[0] <= '5' {
            let message = strip_timestamps(message_behind(&parts, i).as_str());
            let start = concat("HTTP ", text_of(status.as_slice()).as_str(), " ");
            return Some(pair(start.as_str(), message.as_str()));
        }
        i += 1;
    }
    None
}

} // verus!

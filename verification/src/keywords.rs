//! Keywords that logs and lessons are searched for.
use vstd::prelude::*;
use crate::casing::{ascii_lower, small_letter};
use crate::text::chars_of;

verus! {

/// Whether two characters are the same but for the case of an ASCII letter.
pub open spec fn alike(a: char, b: char) -> bool {
    ascii_lower(a) == ascii_lower(b)
}

/// Whether `key` stands in `text` at `i`, without regard to the case of ASCII letters.
pub open spec fn alike_at(text: Seq<char>, key: Seq<char>, i: int) -> bool {
    0 <= i && i + key.len() <= text.len() && forall|k: int|
        0 <= k < key.len() ==> alike(#[trigger] key[k], text[i + k])
}

/// Whether a text holds `key`, without regard to the case of ASCII letters.
pub open spec fn holds(text: Seq<char>, key: Seq<char>) -> bool {
    exists|i: int| alike_at(text, key, i)
}

/// `alike_at` on slices.
fn is_alike_at(text: &[char], key: &[char], i: usize) -> (yes: bool)
    requires
        i + key@.len() <= text@.len(),
    ensures
        yes == alike_at(text@, key@, i as int),
{
    let n: usize = text.len();
    let mut k: usize = 0;
    while k < key.len()
        invariant
            k <= key@.len(),
            n == text@.len(),
            i + key@.len() <= text@.len(),
            forall|j: int| 0 <= j < k ==> alike(#[trigger] key@[j], text@[i + j]),
        decreases key@.len() - k,
    {
        if small_letter(key[k]) != small_letter(text[i + k]) {
            assert(!alike(key@[k as int], text@[i + k]));
            return false;
        }
        k += 1;
    }
    true
}

/// Whether a text holds a key.
pub fn is_held(text: &str, key: &str) -> (yes: bool)
    ensures
        yes == holds(text@, key@),
{
    let all = chars_of(text);
    let wanted = chars_of(key);
    if wanted.len() > all.len() {
        return false;
    }
    let last: usize = all.len() - wanted.len();
    let mut i: usize = 0;
    loop
        invariant
            all@ == text@,
            wanted@ == key@,
            last + wanted@.len() == all@.len(),
            i <= last,
            forall|j: int| 0 <= j < i ==> !alike_at(text@, key@, j),
        decreases last - i,
    {
        if is_alike_at(all.as_slice(), wanted.as_slice(), i) {
            return true;
        }
        if i == last {
            assert forall|j: int| !alike_at(text@, key@, j) by {
                if j == i {
                    assert(!alike_at(text@, key@, i as int));
                }
            }
            return false;
        }
        i += 1;
    }
}

} // verus!

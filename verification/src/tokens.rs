//! Estimating how many tokens a text costs.
use vstd::prelude::*;

verus! {

/// The tokens that `chars` characters come to, at 3.8 characters a token, rounded up.
pub open spec fn estimated_tokens(chars: int) -> int {
    (10 * chars + 37) / 38
}

/// An estimate is the least number of tokens that covers the characters.
pub proof fn lemma_estimate_is_tight(chars: int)
    requires
        0 <= chars,
    ensures
        38 * estimated_tokens(chars) >= 10 * chars,
        38 * (estimated_tokens(chars) - 1) < 10 * chars,
        estimated_tokens(chars) == 0 <==> chars == 0,
{
}

/// More characters never cost fewer tokens.
pub proof fn lemma_estimate_grows(a: int, b: int)
    requires
        0 <= a <= b,
    ensures
        estimated_tokens(a) <= estimated_tokens(b),
{
}

/// `estimated_tokens` on a number.
pub fn estimate_tokens(chars: i64) -> (tokens: i64)
    requires
        0 <= chars,
    ensures
        tokens == estimated_tokens(chars as int),
{
    ((10 * (chars as i128) + 37) / 38) as i64
}

} // verus!

//! Expecting given tokens verbatim in an input.

use vstd::prelude::*;
use crate::token::{TokenTree, TokV, token_view, tokens_view, lemma_tokens_view, token_eq};

verus! {

/// The input differs from the expected tokens at `at` (the end of the
/// input when `at` is its length).
#[derive(Debug)]
pub struct UnexpectedToken {
    pub at: usize,
}

/// The first position from `k` at which `input[pos..]` and `expected`
/// differ, if any.
pub open spec fn first_difference(input: Seq<TokV>, pos: int, expected: Seq<TokV>, k: int) -> Option<int>
    decreases expected.len() - k,
{
    if k >= expected.len() || k < 0 {
        None
    } else if pos + k >= input.len() || input[pos + k] != expected[k] {
        Some(pos + k)
    } else {
        first_difference(input, pos, expected, k + 1)
    }
}

/// Checks that one token tree equals the expected one.
pub fn expect_token_tree(input: &TokenTree, expected: &TokenTree) -> (r: Result<(), UnexpectedToken>)
    ensures
        r is Ok <==> token_view(*input) == token_view(*expected),
        r matches Err(e) ==> e.at == 0,
{
    if token_eq(input, expected) {
        Ok(())
    } else {
        Err(UnexpectedToken { at: 0 })
    }
}

/// Checks that `input` holds the tokens `expected` from `pos`, giving the
/// position after them.
pub fn expect_tokens(input: &Vec<TokenTree>, pos: usize, expected: &Vec<TokenTree>) -> (r: Result<usize, UnexpectedToken>)
    requires
        pos <= input.len(),
    ensures
        r is Ok <==> first_difference(tokens_view(input@), pos as int, tokens_view(expected@), 0) is None,
        r matches Ok(p) ==> p == pos + expected.len() && tokens_view(input@).subrange(pos as int, p as int)
            == tokens_view(expected@),
        r matches Err(e) ==> first_difference(tokens_view(input@), pos as int, tokens_view(expected@), 0)
            == Some(e.at as int),
{
    proof {
        lemma_tokens_view(input@);
        lemma_tokens_view(expected@);
    }
    let ghost iv = tokens_view(input@);
    let ghost ev = tokens_view(expected@);
    let mut k: usize = 0;
    while k < expected.len()
        invariant
            pos <= input.len(),
            k <= expected.len(),
            iv == tokens_view(input@),
            ev == tokens_view(expected@),
            iv.len() == input.len(),
            ev.len() == expected.len(),
            forall|j: int| 0 <= j < input.len() ==> #[trigger] iv[j] == token_view(input@[j]),
            forall|j: int| 0 <= j < expected.len() ==> #[trigger] ev[j] == token_view(expected@[j]),
            pos + k <= input.len(),
            forall|j: int| 0 <= j < k ==> iv[pos + j] == ev[j],
            first_difference(iv, pos as int, ev, 0) == first_difference(iv, pos as int, ev, k as int),
        decreases expected.len() - k,
    {
        if pos + k >= input.len() {
            return Err(UnexpectedToken { at: pos + k });
        }
        if !token_eq(&input[pos + k], &expected[k]) {
            return Err(UnexpectedToken { at: pos + k });
        }
        k = k + 1;
    }
    assert(iv.subrange(pos as int, (pos + k) as int) =~= ev);
    Ok(pos + k)
}

} // verus!

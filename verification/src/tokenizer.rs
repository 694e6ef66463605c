//! Token counting for chunk budgets.
use vstd::prelude::*;
use vstd::string::StrSliceExecFns;

verus! {

/// The token ids that the cl100k_base encoding gives a text, special tokens
/// allowed.
pub uninterp spec fn cl100k_tokens(text: Seq<char>) -> Seq<u32>;

/// Whether the cl100k_base encoder finishes a text without an error. Its
/// splitting expression runs in a backtracking engine whose stack and
/// backtrack count are bounded, so a very long run of whitespace can make
/// it give up; whether it does depends on the text alone.
pub uninterp spec fn cl100k_encodes(text: Seq<char>) -> bool;

/// Calls `CoreBPE::encode` on tiktoken's shared cl100k_base tokenizer with
/// every special token allowed, and keeps the token ids of an `Ok` result.
/// Claimed: the result is `Some` exactly when the encoder succeeds on the
/// text, and then holds the named token ids. The shared tokenizer is built
/// on first use from the vocabulary embedded in tiktoken; that step does
/// not depend on the text and its failure is not stated here.
#[verifier::external_body]
fn cl100k_encode(text: &str) -> (ids: Option<Vec<u32>>)
    ensures
        ids is Some <==> cl100k_encodes(text@),
        ids matches Some(v) ==> v@ == cl100k_tokens(text@),
{
    let bpe = tiktoken_rs::cl100k_base_singleton();
    bpe.encode(text, &bpe.special_tokens()).ok().map(|r| r.0)
}

/// Counts exact tokens with the GPT-compatible cl100k_base encoding. The
/// text must be one the encoder finishes.
pub fn count_tokens(text: &str) -> (n: usize)
    requires
        cl100k_encodes(text@),
    ensures
        n == cl100k_tokens(text@).len(),
{
    match cl100k_encode(text) {
        Some(ids) => ids.len(),
        None => 0,
    }
}

/// Counts tokens as `count_tokens` does, or gives `None` for a text that
/// the encoder gives up on.
pub fn try_count_tokens(text: &str) -> (n: Option<usize>)
    ensures
        n is Some <==> cl100k_encodes(text@),
        n matches Some(k) ==> k == cl100k_tokens(text@).len(),
{
    if cl100k_encode(text).is_some() {
        Some(count_tokens(text))
    } else {
        None
    }
}

/// Fast token estimation from the character count: about four characters
/// per token, rounded up.
pub fn estimate_tokens(text: &str) -> (n: usize)
    ensures
        n == (text@.len() + 3) / 4,
{
    let len = text.unicode_len();
    let q = len / 4;
    let r = len % 4;
    assert((len + 3) / 4 == q + (r + 3) / 4) by (nonlinear_arith)
        requires
            len == 4 * q + r,
            0 <= r < 4,
    ;
    q + if r == 0 {
        0
    } else {
        1
    }
}

} // verus!

//! Token counting under the fixed byte-pair-encoding vocabulary that
//! budgets every summarization call.

use vstd::prelude::*;

verus! {

/// The number of byte-pair-encoding tokens of a text under the fixed
/// `p50k_base` vocabulary.  The split is a pure function of the text:
/// the vocabulary is embedded in the tokenizer and never changes.
pub uninterp spec fn p50k_token_count(s: Seq<char>) -> nat;

/// Relies on `tiktoken_rs::p50k_base_singleton` and
/// `CoreBPE::encode_with_special_tokens`: the tokenizer is built once
/// from the embedded `p50k_base` vocabulary, and the token sequence it
/// yields depends on the text alone.
#[verifier::external_body]
pub(crate) fn count_tokens(text: &str) -> (n: usize)
    ensures
        n as nat == p50k_token_count(text@),
{
    tiktoken_rs::p50k_base_singleton().encode_with_special_tokens(text).len()
}

} // verus!

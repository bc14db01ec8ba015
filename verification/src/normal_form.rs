//! Proof that a normalized text is in its final form.

use vstd::prelude::*;
use vstd::utf8::is_ascii_chars;
use crate::crockford::{lemma_normalize_push, spec_normalize, substituted};
use crate::text::{ascii_lowercase, lemma_without_hyphens_keeps, lowercase, without_hyphens};

verus! {

/// A character that normalizing leaves as it is: an ASCII character that
/// is no capital, no hyphen and none of the look-alikes `i`, `l`, `o`.
pub open spec fn is_settled(c: char) -> bool {
    '\0' <= c <= '\u{7f}' && !('A' <= c <= 'Z') && c != '-' && c != 'i' && c != 'l' && c != 'o'
}

/// Every character of `s` is settled.
pub open spec fn all_settled(s: Seq<char>) -> bool {
    forall|i: int| 0 <= i < s.len() ==> is_settled(#[trigger] s[i])
}

/// What is left of lowercase ASCII text, once the hyphens are out and the
/// look-alikes replaced, is settled.
pub proof fn lemma_rest_is_settled(lowered: Seq<char>)
    requires
        forall|i: int|
            0 <= i < lowered.len() ==> '\0' <= (#[trigger] lowered[i]) <= '\u{7f}' && !('A'
                <= lowered[i] <= 'Z'),
    ensures
        all_settled(substituted(without_hyphens(lowered))),
    decreases lowered.len(),
{
    if lowered.len() == 0 {
        reveal(Seq::filter);
    } else {
        let before = lowered.drop_last();
        lemma_rest_is_settled(before);
        lemma_normalize_push(before, lowered.last());
        assert(before.push(lowered.last()) =~= lowered);
    }
}

/// Normalizing changes nothing in a text whose characters are settled.
pub proof fn lemma_settled_is_normal(s: Seq<char>)
    requires
        all_settled(s),
    ensures
        spec_normalize(s) == s,
{
    assert(is_ascii_chars(s)) by {
        assert forall|i: int| 0 <= i < s.len() implies '\0' <= #[trigger] s[i] <= '\u{7f}' by {
            assert(is_settled(s[i]));
        }
    }
    assert(ascii_lowercase(s) =~= s);
    lemma_without_hyphens_keeps(s);
    assert(substituted(s) =~= s);
}

/// Normalizing an ASCII text twice gives what normalizing it once gives.
pub proof fn normalize_is_idempotent_on_ascii(text: Seq<char>)
    requires
        is_ascii_chars(text),
    ensures
        spec_normalize(spec_normalize(text)) == spec_normalize(text),
{
    assert(lowercase(text) == ascii_lowercase(text));
    lemma_rest_is_settled(ascii_lowercase(text));
    lemma_settled_is_normal(spec_normalize(text));
}

} // verus!

use decompound::{decompound, DecompositionError, DecompositionOptions};
use vstd::prelude::*;
use vstd::utf8::encode_utf8;

use crate::dictionary::Dictionary;

verus! {

#[verifier::external_type_specification]
#[verifier::external_body]
pub struct ExDecompositionError(DecompositionError);

/// The constituents into which `decompound::decompound` splits `word`, trying each suffix
/// also in titlecase, when a part is valid exactly when it is one of `words`; `None` when
/// it reports an error.
pub uninterp spec fn decomposition(word: Seq<char>, words: Set<Seq<char>>) -> Option<
    Seq<Seq<char>>,
>;

/// Calls `decompound::decompound` with `DecompositionOptions::TRY_TITLECASE_SUFFIX`, a part
/// being valid when the dictionary holds it. The contract names the result as a function
/// of the word and the dictionary's words, and states two facts that the crate's source
/// shows of a successful result: it has at least two constituents (a prefix and at least
/// one suffix), and each of them passed the validity check.
#[verifier::external_body]
fn decompose(word: &str, dict: &Dictionary) -> (res: Result<Vec<String>, DecompositionError>)
    ensures
        res is Ok <==> decomposition(word@, dict@) is Some,
        res matches Ok(parts) ==> {
            &&& parts@.len() == (decomposition(word@, dict@)->0).len()
            &&& forall|i: int|
                0 <= i < parts@.len() ==> (#[trigger] parts@[i])@ == (decomposition(
                    word@,
                    dict@,
                )->0)[i]
            &&& parts@.len() >= 2
            &&& forall|i: int| 0 <= i < parts@.len() ==> dict@.contains((#[trigger] parts@[i])@)
        },
{
    decompound(word, &|part: &str| dict.contains_str(part), DecompositionOptions::TRY_TITLECASE_SUFFIX)
}

/// The length of a word in bytes of UTF-8, as `str::len` gives it.
pub open spec fn byte_len(word: Seq<char>) -> usize {
    encode_utf8(word).len() as usize
}

/// A valid German compound: at least four bytes of UTF-8, and split by the decomposition
/// into at least two constituents.
pub open spec fn is_compound(word: Seq<char>, words: Set<Seq<char>>) -> bool {
    &&& byte_len(word) >= 4
    &&& decomposition(word, words) is Some
    &&& (decomposition(word, words)->0).len() >= 2
}

/// Check if a word is a valid German compound by attempting to decompose it
/// into dictionary words.
pub fn is_valid_compound(word: &str, dict: &Dictionary) -> (res: bool)
    ensures
        res == is_compound(word@, dict@),
        res ==> forall|i: int|
            0 <= i < (decomposition(word@, dict@)->0).len() ==> dict@.contains(
                #[trigger] (decomposition(word@, dict@)->0)[i],
            ),
{
    if word.len() < 4 {
        return false;
    }
    match decompose(word, dict) {
        Ok(parts) => {
            proof {
                let d = decomposition(word@, dict@)->0;
                assert forall|i: int| 0 <= i < d.len() implies dict@.contains(#[trigger] d[i]) by {
                    assert(parts@[i]@ == d[i]);
                }
            }
            parts.len() >= 2
        },
        Err(_) => false,
    }
}

/// Every word of at least four bytes that the decomposition splits into two or more parts
/// (however many) is a valid compound; a shorter word, or one that does not decompose, is
/// not.
pub proof fn decomposed_words_are_compounds(word: Seq<char>, words: Set<Seq<char>>)
    ensures
        (4 <= encode_utf8(word).len() <= usize::MAX && decomposition(word, words) is Some && (
        decomposition(word, words)->0).len() >= 2) ==> is_compound(word, words),
        encode_utf8(word).len() < 4 ==> !is_compound(word, words),
        decomposition(word, words) is None ==> !is_compound(word, words),
{
}

} // verus!

//! Language identification, German compound-word handling and a TeX masker.

pub mod chars;
mod compound;
pub mod dictionary;
pub mod german_spell_check;
pub mod language;
pub mod mask;
pub mod masker;

use std::io::Error as IoError;
use std::string::FromUtf8Error;

use vstd::prelude::*;
use vstd::utf8::{decode_utf8, valid_utf8};

pub use compound::{decomposition, is_compound};
pub use dictionary::Dictionary;
pub use german_spell_check::GermanSpellCheck;
pub use language::Language;
pub use mask::{Mask, Span};
pub use masker::Masker;

verus! {

/// Check if a word is a valid German compound by attempting to decompose it.
pub fn is_valid_compound(word: &str, dict: &Dictionary) -> (res: bool)
    ensures
        res == is_compound(word@, dict@),
        res ==> forall|i: int|
            0 <= i < (decomposition(word@, dict@)->0).len() ==> dict@.contains(
                #[trigger] (decomposition(word@, dict@)->0)[i],
            ),
{
    compound::is_valid_compound(word, dict)
}


#[verifier::external_type_specification]
#[verifier::external_body]
pub struct ExIoError(IoError);

#[verifier::external_type_specification]
#[verifier::external_body]
pub struct ExFromUtf8Error(FromUtf8Error);

/// The bytes that `zstd::stream::decode_all` decodes from a zstd stream; `None` when it
/// reports an error.
pub uninterp spec fn zstd_decoded(compressed: Seq<u8>) -> Option<Seq<u8>>;

/// Calls `zstd::stream::decode_all` on the bytes. The contract names the result as a
/// function of the input bytes alone; the zstd format is not stated.
#[verifier::external_body]
fn zstd_decode_all(compressed: &[u8]) -> (res: Result<Vec<u8>, IoError>)
    ensures
        res is Ok <==> zstd_decoded(compressed@) is Some,
        res matches Ok(bytes) ==> bytes@ == zstd_decoded(compressed@)->0,
{
    zstd::stream::decode_all(compressed)
}

/// Calls `String::from_utf8`, which succeeds exactly on valid UTF-8 and then holds the
/// characters that the bytes encode.
#[verifier::external_body]
fn string_from_utf8(bytes: Vec<u8>) -> (res: Result<String, FromUtf8Error>)
    ensures
        res is Ok <==> valid_utf8(bytes@),
        res matches Ok(s) ==> s@ == decode_utf8(bytes@),
{
    String::from_utf8(bytes)
}

/// A compressed word list can be read: it decodes, and the result is valid UTF-8.
pub open spec fn decompresses(compressed: Seq<u8>) -> bool {
    &&& zstd_decoded(compressed) is Some
    &&& valid_utf8(zstd_decoded(compressed)->0)
}

/// Decompress a zstd-compressed word list into its text.
pub fn decompress_dictionary(compressed: &[u8]) -> (text: String)
    requires
        decompresses(compressed@),
    ensures
        text@ == decode_utf8(zstd_decoded(compressed@)->0),
{
    match zstd_decode_all(compressed) {
        Ok(bytes) => match string_from_utf8(bytes) {
            Ok(text) => text,
            Err(_) => String::new(),
        },
        Err(_) => String::new(),
    }
}

/// `decompress_dictionary` on any input: `None` when the bytes are not a zstd stream of
/// UTF-8 text.
pub fn try_decompress_dictionary(compressed: &[u8]) -> (text: Option<String>)
    ensures
        text is Some <==> decompresses(compressed@),
        text matches Some(t) ==> t@ == decode_utf8(zstd_decoded(compressed@)->0),
{
    let readable = match zstd_decode_all(compressed) {
        Ok(bytes) => string_from_utf8(bytes).is_ok(),
        Err(_) => false,
    };
    if readable {
        Some(decompress_dictionary(compressed))
    } else {
        None
    }
}

} // verus!

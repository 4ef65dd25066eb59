//! Base58 text, as the `bs58` crate writes and reads it with its default
//! (Bitcoin) alphabet.
//!
//! Nothing in this module is proved. What Base58 text a byte string has is not
//! spelled out here: it is given a name, and the contracts say that the crate
//! computes it.

use vstd::prelude::*;

verus! {

/// Whether `c` is one of the 58 characters of the alphabet: a digit but `0`, or
/// a letter but `I`, `O` and `l`.
pub open spec fn is_base58_char(c: char) -> bool {
    ||| '1' <= c <= '9'
    ||| 'A' <= c <= 'Z' && c != 'I' && c != 'O'
    ||| 'a' <= c <= 'z' && c != 'l'
}

/// Whether `text` holds characters of the alphabet only.
pub open spec fn is_base58(text: Seq<char>) -> bool {
    forall|i: int| 0 <= i < text.len() ==> is_base58_char(#[trigger] text[i])
}

/// The Base58 text of a byte string.
pub uninterp spec fn base58_encoded(bytes: Seq<u8>) -> Seq<char>;

/// The byte string that a Base58 text stands for, or `None` where the text is
/// none.
pub uninterp spec fn base58_decoded(text: Seq<char>) -> Option<Seq<u8>>;

/// The error of the decoder of `bs58`, of which nothing is known here.
#[verifier::external_type_specification]
#[verifier::external_body]
pub struct ExDecodeError(bs58::decode::Error);

/// Calls `bs58::encode(bytes).into_string()`. Trusted: the string is the
/// Base58 text of `bytes`, it holds characters of the alphabet only, and
/// decoding it gives `bytes` back.
#[verifier::external_body]
pub(crate) fn encode(bytes: &[u8]) -> (text: String)
    ensures
        text@ == base58_encoded(bytes@),
        is_base58(text@),
        base58_decoded(text@) == Some(bytes@),
{
    bs58::encode(bytes).into_string()
}

/// Calls `bs58::decode(text).into_vec()`. Trusted: the call gives the bytes
/// that `text` stands for, and it fails exactly where `text` holds a character
/// outside the alphabet.
#[verifier::external_body]
pub(crate) fn decode(text: &str) -> (r: Result<Vec<u8>, bs58::decode::Error>)
    ensures
        match r {
            Ok(bytes) => base58_decoded(text@) == Some(bytes@),
            Err(_) => base58_decoded(text@) is None,
        },
        r is Ok <==> is_base58(text@),
{
    bs58::decode(text).into_vec()
}

} // verus!

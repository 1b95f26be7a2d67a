//! Bytes and the text that they encode.
use vstd::prelude::*;
use vstd::utf8::{
    decode_utf8, decode_utf8_encode_utf8, encode_utf8, encode_utf8_decode_utf8,
    encode_utf8_valid_utf8, valid_utf8,
};

verus! {

/// How `std::string::FromUtf8Error` describes what is wrong with some bytes.
pub uninterp spec fn utf8_error_text(bytes: Seq<u8>) -> Seq<char>;

/// The text of some bytes, with a replacement character for what is not valid UTF-8.
pub uninterp spec fn utf8_lossy(bytes: Seq<u8>) -> Seq<char>;

/// The text of some bytes: what they encode where they are valid UTF-8, and otherwise that with
/// replacement characters.
pub open spec fn text_of(bytes: Seq<u8>) -> Seq<char> {
    if valid_utf8(bytes) {
        decode_utf8(bytes)
    } else {
        utf8_lossy(bytes)
    }
}

/// A string as Rust would write it in source code, in quotes and with escapes.
pub uninterp spec fn debug_text(s: Seq<char>) -> Seq<char>;

/// `String::from_utf8`. Taken on trust: it succeeds exactly on valid UTF-8, with the text that the
/// bytes encode, and the description of its error depends on the bytes alone.
#[verifier::external_body]
pub(crate) fn string_from_utf8(bytes: Vec<u8>) -> (r: Result<String, String>)
    ensures
        match r {
            Ok(s) => valid_utf8(bytes@) && s@ == decode_utf8(bytes@),
            Err(m) => !valid_utf8(bytes@) && m@ == utf8_error_text(bytes@),
        },
{
    String::from_utf8(bytes).map_err(|e| e.to_string())
}

/// `String::from_utf8_lossy`. Taken on trust: the text depends on the bytes alone, valid UTF-8 gives
/// the text that it encodes, and a first byte of ASCII, which is valid on its own, gives the first
/// character whatever follows it.
#[verifier::external_body]
pub(crate) fn string_from_utf8_lossy(bytes: &[u8]) -> (s: String)
    ensures
        s@ == utf8_lossy(bytes@),
        valid_utf8(bytes@) ==> s@ == decode_utf8(bytes@),
        bytes@.len() > 0 && bytes@[0] < 0x80 ==> s@.len() > 0 && s@[0] as int == bytes@[0] as int,
{
    String::from_utf8_lossy(bytes).into_owned()
}

/// The `Debug` format of a string. Taken on trust: it depends on the string alone.
#[verifier::external_body]
pub(crate) fn debug_string(s: &str) -> (r: String)
    ensures
        r@ == debug_text(s@),
{
    format!("{:?}", s)
}

/// Text survives being encoded and decoded.
pub proof fn lemma_text_roundtrip(s: Seq<char>)
    ensures
        valid_utf8(encode_utf8(s)),
        decode_utf8(encode_utf8(s)) == s,
{
    encode_utf8_valid_utf8(s);
    encode_utf8_decode_utf8(s);
}

/// Valid bytes survive being decoded and encoded.
pub proof fn lemma_bytes_roundtrip(b: Seq<u8>)
    requires
        valid_utf8(b),
    ensures
        encode_utf8(decode_utf8(b)) == b,
{
    decode_utf8_encode_utf8(b);
}

} // verus!

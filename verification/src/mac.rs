//! Message authentication codes: HMAC over SHA-256.
use hmac::Mac;
use vstd::prelude::*;

verus! {

/// The 32-byte HMAC-SHA256 code of `msg` under `key`.
pub uninterp spec fn hmac_sha256_code(key: Seq<u8>, msg: Seq<u8>) -> [u8; 32];

/// Computes an HMAC-SHA256 code with `hmac::Hmac::<sha2::Sha256>`: key the instance with
/// `new_from_slice`, which takes a key of any length, feed it the message and finalize it.
/// Taken on trust: the code depends on the key and the message alone.
#[verifier::external_body]
pub(crate) fn hmac_sha256(key: &[u8], msg: &[u8]) -> (code: [u8; 32])
    ensures
        code@ == hmac_sha256_code(key@, msg@)@,
{
    let mut mac = hmac::Hmac::<sha2::Sha256>::new_from_slice(key).expect("any key length");
    mac.update(msg);
    mac.finalize().into_bytes().into()
}

/// Compares a received code with the computed one through `Mac::verify_slice`, which does so in
/// constant time. Taken on trust: it succeeds exactly when the two codes are the same bytes.
#[verifier::external_body]
pub(crate) fn hmac_sha256_matches(key: &[u8], msg: &[u8], code: &[u8]) -> (ok: bool)
    ensures
        ok == (code@ == hmac_sha256_code(key@, msg@)@),
{
    let mut mac = hmac::Hmac::<sha2::Sha256>::new_from_slice(key).expect("any key length");
    mac.update(msg);
    mac.verify_slice(code).is_ok()
}

} // verus!

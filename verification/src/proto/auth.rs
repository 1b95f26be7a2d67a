//! The authenticated wire format of a datagram.
//!
//! Layout: the counter in eight bytes, the encoded event, and an HMAC-SHA256 code over both.
use crate::bytes::{
    append_bytes, be_bytes, be_value, get_u64_be, lemma_be_bytes_len, lemma_be_bytes_of_value,
    lemma_be_value_of_bytes, lemma_byte_ranges, put_u64_be,
};
use crate::mac::{hmac_sha256, hmac_sha256_code, hmac_sha256_matches};
use crate::proto::event::{
    decoded_event, law_decode_of_encode, law_unknown_types_are_reported, law_wire_len,
    padded_event, ProtoEvent, ProtocolError, MAX_EVENT_SIZE,
};
use vstd::prelude::*;

verus! {

/// Size of the authentication code.
pub const HMAC_TAG_SIZE: usize = 32;

/// Size of the counter in front of the event.
pub const COUNTER_SIZE: usize = 8;

/// The shortest datagram: a counter, a one-byte event and a code.
pub const MIN_AUTH_DATAGRAM: usize = 41;

/// The longest datagram: a counter, an event of `MAX_EVENT_SIZE` bytes and a code.
pub const MAX_AUTH_DATAGRAM: usize = 61;

/// What the authentication code of a datagram covers.
pub open spec fn payload(event: ProtoEvent, counter: u64) -> Seq<u8> {
    be_bytes(counter as nat, 8) + event.wire()
}

/// The datagram that carries `event` under `counter`, authenticated with `key`.
pub open spec fn sealed(event: ProtoEvent, key: Seq<u8>, counter: u64) -> Seq<u8> {
    payload(event, counter) + hmac_sha256_code(key, payload(event, counter))@
}

/// Does a datagram end in the authentication code of what precedes it?
pub open spec fn authentic(datagram: Seq<u8>, key: Seq<u8>) -> bool {
    let at = datagram.len() - HMAC_TAG_SIZE;
    datagram.skip(at) == hmac_sha256_code(key, datagram.take(at))@
}

/// What a received datagram says, once it is known whether its authentication code matches.
pub open spec fn opened(datagram: Seq<u8>, code_matches: bool) -> Result<
    (u64, ProtoEvent),
    ProtocolError,
> {
    let len = datagram.len();
    if len < MIN_AUTH_DATAGRAM || len > MAX_AUTH_DATAGRAM {
        Err(ProtocolError::BadLength(len as usize))
    } else if !code_matches {
        Err(ProtocolError::AuthenticationFailed)
    } else {
        let event_bytes = datagram.subrange(COUNTER_SIZE as int, len - HMAC_TAG_SIZE);
        let zeros = Seq::new((MAX_EVENT_SIZE - event_bytes.len()) as nat, |i: int| 0u8);
        match decoded_event(event_bytes + zeros) {
            Ok(event) => Ok((be_value(datagram.take(COUNTER_SIZE as int)) as u64, event)),
            Err(e) => Err(e),
        }
    }
}

/// Writes what the authentication code of a datagram covers.
pub fn write_payload(event: &ProtoEvent, counter: u64) -> (out: Vec<u8>)
    ensures
        out@ == payload(*event, counter),
{
    let mut out: Vec<u8> = Vec::new();
    put_u64_be(&mut out, counter);
    let event_bytes: Vec<u8> = event.to_bytes();
    append_bytes(&mut out, event_bytes.as_slice());
    assert(out@ =~= payload(*event, counter));
    out
}

/// Puts an authentication code behind a payload. The length counts the bytes in use, and the rest
/// of the buffer is zero.
pub fn attach_code(body: &[u8], code: &[u8; HMAC_TAG_SIZE]) -> (r: (
    [u8; MAX_AUTH_DATAGRAM],
    usize,
))
    requires
        body@.len() + HMAC_TAG_SIZE <= MAX_AUTH_DATAGRAM,
    ensures
        r.1 == body@.len() + HMAC_TAG_SIZE,
        r.0@ == body@ + code@ + Seq::new((MAX_AUTH_DATAGRAM - r.1) as nat, |i: int| 0u8),
{
    let mut buf: [u8; MAX_AUTH_DATAGRAM] = [0u8;MAX_AUTH_DATAGRAM];
    let n: usize = body.len();
    let mut i: usize = 0;
    while i < n
        invariant
            i <= n,
            n == body@.len(),
            n + HMAC_TAG_SIZE <= MAX_AUTH_DATAGRAM,
            forall|k: int| 0 <= k < i ==> buf@[k] == body@[k],
            forall|k: int| i <= k < MAX_AUTH_DATAGRAM ==> buf@[k] == 0,
        decreases n - i,
    {
        buf[i] = body[i];
        i = i + 1;
    }
    let mut j: usize = 0;
    while j < HMAC_TAG_SIZE
        invariant
            j <= HMAC_TAG_SIZE,
            n == body@.len(),
            n + HMAC_TAG_SIZE <= MAX_AUTH_DATAGRAM,
            forall|k: int| 0 <= k < n ==> buf@[k] == body@[k],
            forall|k: int| n <= k < n + j ==> buf@[k] == code@[k - n],
            forall|k: int| n + j <= k < MAX_AUTH_DATAGRAM ==> buf@[k] == 0,
        decreases HMAC_TAG_SIZE - j,
    {
        buf[n + j] = code[j];
        j = j + 1;
    }
    assert(buf@ =~= body@ + code@ + Seq::new(
        (MAX_AUTH_DATAGRAM - (n + HMAC_TAG_SIZE)) as nat,
        |i: int| 0u8,
    ));
    (buf, n + HMAC_TAG_SIZE)
}

/// Encodes an event into the authenticated wire format. The first `r.1` bytes of the buffer are to
/// be sent; the rest is zero.
pub fn encode_authenticated(event: &ProtoEvent, key: &[u8], counter: u64) -> (r: (
    [u8; MAX_AUTH_DATAGRAM],
    usize,
))
    ensures
        r.1 == sealed(*event, key@, counter).len(),
        r.0@ == sealed(*event, key@, counter) + Seq::new(
            (MAX_AUTH_DATAGRAM - r.1) as nat,
            |i: int| 0u8,
        ),
{
    let body: Vec<u8> = write_payload(event, counter);
    proof {
        law_wire_len(*event);
        lemma_be_bytes_len(counter as nat, 8);
    }
    let code: [u8; HMAC_TAG_SIZE] = hmac_sha256(key, body.as_slice());
    attach_code(body.as_slice(), &code)
}

/// Reads a datagram of which it is known whether its authentication code matches.
pub fn open_datagram(datagram: &[u8], code_matches: bool) -> (r: Result<
    (u64, ProtoEvent),
    ProtocolError,
>)
    ensures
        r == opened(datagram@, code_matches),
{
    let len: usize = datagram.len();
    if len < MIN_AUTH_DATAGRAM || len > MAX_AUTH_DATAGRAM {
        return Err(ProtocolError::BadLength(len));
    }
    if !code_matches {
        return Err(ProtocolError::AuthenticationFailed);
    }
    let counter: u64 = get_u64_be(datagram, 0);
    proof {
        assert(datagram@.subrange(0, 8) =~= datagram@.take(8));
    }
    let event_bytes: &[u8] = vstd::slice::slice_subrange(
        datagram,
        COUNTER_SIZE,
        len - HMAC_TAG_SIZE,
    );
    match ProtoEvent::try_from(padded_event(event_bytes)) {
        Ok(event) => Ok((counter, event)),
        Err(e) => Err(e),
    }
}

/// Decodes and authenticates a datagram, of exactly the length that was received. Nothing of the
/// datagram but its length is looked at before its authentication code has been found to match.
pub fn decode_authenticated(datagram: &[u8], key: &[u8]) -> (r: Result<
    (u64, ProtoEvent),
    ProtocolError,
>)
    ensures
        r == opened(datagram@, authentic(datagram@, key@)),
{
    let len: usize = datagram.len();
    if len < MIN_AUTH_DATAGRAM || len > MAX_AUTH_DATAGRAM {
        return Err(ProtocolError::BadLength(len));
    }
    let at: usize = len - HMAC_TAG_SIZE;
    let body: &[u8] = vstd::slice::slice_subrange(datagram, 0, at);
    let code: &[u8] = vstd::slice::slice_subrange(datagram, at, len);
    proof {
        assert(datagram@.subrange(0, at as int) =~= datagram@.take(at as int));
        assert(datagram@.subrange(at as int, len as int) =~= datagram@.skip(at as int));
    }
    let code_matches: bool = hmac_sha256_matches(key, body, code);
    open_datagram(datagram, code_matches)
}

/// A sealed datagram is authentic under its own key, and opening it gives back the counter and the
/// event.
pub proof fn law_open_of_sealed(event: ProtoEvent, key: Seq<u8>, counter: u64)
    ensures
        authentic(sealed(event, key, counter), key),
        opened(sealed(event, key, counter), true) == Ok::<(u64, ProtoEvent), ProtocolError>(
            (counter, event),
        ),
        MIN_AUTH_DATAGRAM <= sealed(event, key, counter).len() <= MAX_AUTH_DATAGRAM,
{
    law_wire_len(event);
    lemma_byte_ranges();
    lemma_be_bytes_len(counter as nat, 8);
    lemma_be_value_of_bytes(counter as nat, 8);
    let body = payload(event, counter);
    let code = hmac_sha256_code(key, body);
    let d = sealed(event, key, counter);
    let at = d.len() - HMAC_TAG_SIZE;
    assert(d.take(at) =~= body);
    assert(d.skip(at) =~= code@);
    assert(d.take(8) =~= be_bytes(counter as nat, 8));
    let event_bytes = d.subrange(8, at);
    assert(event_bytes =~= event.wire());
    let zeros = Seq::new((MAX_EVENT_SIZE - event_bytes.len()) as nat, |i: int| 0u8);
    assert(event.wire().is_prefix_of(event_bytes + zeros));
    law_decode_of_encode(event, event_bytes + zeros);
}

/// A datagram whose code does not match is refused, whatever it says.
pub proof fn law_forged_is_refused(datagram: Seq<u8>, key: Seq<u8>)
    requires
        !authentic(datagram, key),
        datagram.len() <= usize::MAX,
    ensures
        opened(datagram, authentic(datagram, key)) == Err::<(u64, ProtoEvent), ProtocolError>(
            if MIN_AUTH_DATAGRAM <= datagram.len() <= MAX_AUTH_DATAGRAM {
                ProtocolError::AuthenticationFailed
            } else {
                ProtocolError::BadLength(datagram.len() as usize)
            },
        ),
{
}

/// A datagram is the counter in eight bytes, the encoded event, and the thirty-two bytes of the code
/// of both under the key.
pub proof fn law_datagram_layout(event: ProtoEvent, key: Seq<u8>, counter: u64)
    ensures
        ({
            let d = sealed(event, key, counter);
            let at = d.len() - 32;
            &&& d.len() == 40 + event.wire().len()
            &&& be_value(d.take(8)) == counter
            &&& d.subrange(8, at) == event.wire()
            &&& d.skip(at) == hmac_sha256_code(key, d.take(at))@
            &&& payload(event, counter) == d.take(at)
        }),
{
    lemma_byte_ranges();
    lemma_be_bytes_len(counter as nat, 8);
    lemma_be_value_of_bytes(counter as nat, 8);
    let d = sealed(event, key, counter);
    let at = d.len() - 32;
    assert(d.take(8) =~= be_bytes(counter as nat, 8));
    assert(d.subrange(8, at) =~= event.wire());
    assert(d.take(at) =~= payload(event, counter));
    assert(d.skip(at) =~= hmac_sha256_code(key, payload(event, counter))@);
}

/// A datagram is authentic if and only if its last thirty-two bytes are the code of all the others
/// under the key.
pub proof fn law_code_covers_all_the_rest(body: Seq<u8>, code: Seq<u8>, key: Seq<u8>)
    requires
        code.len() == 32,
    ensures
        authentic(body + code, key) <==> code == hmac_sha256_code(key, body)@,
{
    let d = body + code;
    assert(d.skip(d.len() - 32) =~= code);
    assert(d.take(d.len() - 32) =~= body);
}

/// What an authentic datagram says is its counter and its event; a length that no datagram has, a
/// code that does not match, and an unknown event are each reported as such, in this order.
pub proof fn law_datagrams_are_opened(counter: Seq<u8>, event: Seq<u8>, code: Seq<u8>, code_matches: bool)
    requires
        counter.len() == 8,
        code.len() == 32,
        event.len() + 40 <= usize::MAX,
    ensures
        ({
            let d = counter + event + code;
            let r = opened(d, code_matches);
            let fits = 1 <= event.len() <= 21;
            &&& !fits ==> r == Err::<(u64, ProtoEvent), ProtocolError>(
                ProtocolError::BadLength(d.len() as usize),
            )
            &&& fits && !code_matches ==> r == Err::<(u64, ProtoEvent), ProtocolError>(
                ProtocolError::AuthenticationFailed,
            )
            &&& fits && code_matches && event[0] > 10 ==> r == Err::<(u64, ProtoEvent), ProtocolError>(
                ProtocolError::InvalidEventId(event[0]),
            )
            &&& fits && code_matches && event[0] <= 10 ==> (r matches Ok((c, e)) && c == be_value(
                counter,
            ) && decoded_event(event + Seq::new((21 - event.len()) as nat, |i: int| 0u8))
                == Ok::<ProtoEvent, ProtocolError>(e))
        }),
{
    let d = counter + event + code;
    if 1 <= event.len() <= 21 {
        let zeros = Seq::new((21 - event.len()) as nat, |i: int| 0u8);
        assert(d.subrange(8, d.len() - 32) =~= event);
        assert(d.take(8) =~= counter);
        assert((event + zeros)[0] == event[0]);
        lemma_byte_ranges();
        lemma_be_bytes_of_value(counter);
        law_unknown_types_are_reported(event + zeros);
    }
}

/// The sizes that follow from the layout.
pub proof fn law_datagram_sizes()
    ensures
        MIN_AUTH_DATAGRAM == 8 + 1 + 32,
        MAX_AUTH_DATAGRAM == 8 + 21 + 32,
        MAX_EVENT_SIZE == 21,
{
}

} // verus!

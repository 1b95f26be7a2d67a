//! Frames of the control connection: a type byte, the length of the payload in four bytes, and the
//! payload.
use crate::bytes::{
    append_bytes, be_bytes, be_value, get_u32_be, lemma_be_bytes_len, lemma_be_value_of_bytes,
    lemma_byte_ranges, put_u32_be,
};
use crate::text::{decimal, decimal_string};
use vstd::prelude::*;
use vstd::string::StringExecFns;

verus! {

/// The largest payload that is read.
pub const MAX_FRAME_BYTES: u32 = 0x100_0000;

/// The largest list of files that is sent, well below what a peer reads.
pub const MAX_OFFER_BYTES: usize = 0xf0_0000;

/// The size of a frame's header.
pub const HEADER_SIZE: usize = 5;

/// The kinds of frame.
#[derive(Clone, Copy, Debug, PartialEq, Eq, Structural)]
pub enum FrameKind {
    Text,
    FileOffer,
    FileRevoke,
}

impl FrameKind {
    /// The type byte of this kind.
    pub open spec fn code(self) -> u8 {
        match self {
            FrameKind::Text => 0x01,
            FrameKind::FileOffer => 0x10,
            FrameKind::FileRevoke => 0x11,
        }
    }

    /// The type byte of this kind.
    pub fn type_byte(self) -> (b: u8)
        ensures
            b == self.code(),
    {
        match self {
            FrameKind::Text => 0x01,
            FrameKind::FileOffer => 0x10,
            FrameKind::FileRevoke => 0x11,
        }
    }

    /// The kind with a type byte.
    pub fn from_type(b: u8) -> (r: Option<FrameKind>)
        ensures
            match r {
                Some(k) => k.code() == b,
                None => b != 0x01 && b != 0x10 && b != 0x11,
            },
    {
        match b {
            0x01 => Some(FrameKind::Text),
            0x10 => Some(FrameKind::FileOffer),
            0x11 => Some(FrameKind::FileRevoke),
            _ => None,
        }
    }
}

/// A frame as it goes over the wire. The length field holds the low four bytes of the length.
pub open spec fn frame_bytes(type_byte: u8, payload: Seq<u8>) -> Seq<u8> {
    seq![type_byte] + be_bytes(payload.len(), 4) + payload
}

/// Encodes a frame.
pub fn encode_frame(type_byte: u8, payload: &[u8]) -> (out: Vec<u8>)
    ensures
        out@ == frame_bytes(type_byte, payload@),
{
    let mut out: Vec<u8> = Vec::new();
    out.push(type_byte);
    let len: u32 = (payload.len() as u64 % 0x1_0000_0000) as u32;
    put_u32_be(&mut out, len);
    append_bytes(&mut out, payload);
    proof {
        lemma_be_bytes_wrap(payload@.len());
        assert(out@ =~= frame_bytes(type_byte, payload@));
    }
    out
}

proof fn lemma_be_bytes_wrap(n: nat)
    ensures
        be_bytes(n % 0x1_0000_0000, 4) == be_bytes(n, 4),
{
    reveal_with_fuel(be_bytes, 5);
    let m = n % 0x1_0000_0000;
    assert(m % 256 == n % 256);
    assert(m / 256 % 256 == n / 256 % 256);
    assert(m / 256 / 256 % 256 == n / 256 / 256 % 256);
    assert(m / 256 / 256 / 256 % 256 == n / 256 / 256 / 256 % 256);
}

/// Reads the header of a frame: its type byte and the length of its payload, unless that is too
/// large.
pub fn decode_header(header: &[u8; HEADER_SIZE]) -> (r: Result<(u8, usize), String>)
    ensures
        match r {
            Ok((t, len)) => t == header@[0] && len as nat == be_value(header@.subrange(1, 5)) && len
                <= MAX_FRAME_BYTES,
            Err(m) => be_value(header@.subrange(1, 5)) > MAX_FRAME_BYTES && m@
                == "frame too large: "@ + decimal(be_value(header@.subrange(1, 5))),
        },
{
    let s: &[u8] = header.as_slice();
    let len: u32 = get_u32_be(s, 1);
    if len > MAX_FRAME_BYTES {
        let mut m: String = "frame too large: ".to_owned();
        let digits: String = decimal_string(len as u64);
        m.append(digits.as_str());
        return Err(m);
    }
    Ok((s[0], len as usize))
}

/// May a list of files of this many bytes be sent?
pub fn offer_fits(len: usize) -> (b: bool)
    ensures
        b == (len <= MAX_OFFER_BYTES),
{
    len <= MAX_OFFER_BYTES
}

/// A frame whose payload is not too large is read as it was written: its header gives the type
/// byte and the length, and what follows is the payload.
pub proof fn law_frame_is_read_as_written(type_byte: u8, payload: Seq<u8>)
    requires
        payload.len() <= MAX_FRAME_BYTES,
    ensures
        frame_bytes(type_byte, payload).len() == HEADER_SIZE + payload.len(),
        frame_bytes(type_byte, payload)[0] == type_byte,
        be_value(frame_bytes(type_byte, payload).subrange(1, 5)) == payload.len(),
        frame_bytes(type_byte, payload).skip(HEADER_SIZE as int) == payload,
{
    lemma_byte_ranges();
    lemma_be_bytes_len(payload.len(), 4);
    lemma_be_value_of_bytes(payload.len(), 4);
    let f = frame_bytes(type_byte, payload);
    assert(f.subrange(1, 5) =~= be_bytes(payload.len(), 4));
    assert(f.skip(5) =~= payload);
}

/// A list of files that is sent is never too large for its receiver.
pub proof fn law_sent_offer_is_readable(len: usize)
    requires
        len <= MAX_OFFER_BYTES,
    ensures
        len <= MAX_FRAME_BYTES,
{
}

/// Each kind of frame is told by its type byte.
pub proof fn law_kinds_are_told_apart(a: FrameKind, b: FrameKind)
    requires
        a.code() == b.code(),
    ensures
        a == b,
{
}

/// The numbers that both sides of a connection have to agree on.
pub proof fn law_frames_are_numbered()
    ensures
        FrameKind::Text.code() == 0x01,
        FrameKind::FileOffer.code() == 0x10,
        FrameKind::FileRevoke.code() == 0x11,
        MAX_FRAME_BYTES == 16 * 1024 * 1024,
        MAX_OFFER_BYTES == 15 * 1024 * 1024,
        HEADER_SIZE == 5,
{
}

} // verus!

//! Requests for file contents, and the authentication of both kinds of connection.
use crate::bytes::{
    append_bytes, be_bytes, be_value, get_u32_be, get_u64_be, lemma_be_bytes_len,
    lemma_be_bytes_of_value, lemma_be_value_of_bytes, lemma_byte_ranges, put_u32_be, put_u64_be,
};
use crate::mac::{hmac_sha256, hmac_sha256_code, hmac_sha256_matches};
use crate::text::{decimal, decimal_string};
use vstd::prelude::*;
use vstd::string::StringExecFns;

verus! {

/// The version of a request.
pub const DATA_VER: u8 = 1;

/// The length of a request.
pub const REQUEST_SIZE: usize = 53;

/// The version of the control connection's authentication.
pub const CTRL_VER: u8 = 1;

/// The length of a greeting.
pub const HELLO_SIZE: usize = 21;

/// The four bytes that a request starts with: `LMFD`.
pub open spec fn data_magic() -> Seq<u8> {
    seq![0x4cu8, 0x4d, 0x46, 0x44]
}

/// The four bytes that a greeting starts with: `LMCA`.
pub open spec fn ctrl_magic() -> Seq<u8> {
    seq![0x4cu8, 0x4d, 0x43, 0x41]
}

/// A request for the contents of a file from an offset on.
#[derive(Clone, Copy, Debug, PartialEq, Eq, Structural)]
pub struct DataReq {
    pub session_id: u32,
    pub file_id: u32,
    pub offset: u64,
}

/// What is wrong with a request that was received.
pub open spec fn request_fault(buf: Seq<u8>) -> Option<Seq<char>> {
    if buf.len() != REQUEST_SIZE {
        Some("bad handshake len "@ + decimal(buf.len()))
    } else if buf.take(4) != data_magic() {
        Some("bad magic"@)
    } else if buf[4] != DATA_VER {
        Some("bad ver"@)
    } else {
        None
    }
}

impl DataReq {
    /// What the authentication code of a request covers.
    pub open spec fn signed(self) -> Seq<u8> {
        be_bytes(self.session_id as nat, 4) + be_bytes(self.file_id as nat, 4) + be_bytes(
            self.offset as nat,
            8,
        )
    }

    /// The request with an authentication code, as it goes over the wire.
    pub open spec fn wire(self, code: Seq<u8>) -> Seq<u8> {
        data_magic() + seq![DATA_VER] + code + self.signed()
    }

    /// The request in the last sixteen bytes of a buffer.
    pub open spec fn fields_of(buf: Seq<u8>) -> DataReq {
        DataReq {
            session_id: be_value(buf.subrange(37, 41)) as u32,
            file_id: be_value(buf.subrange(41, 45)) as u32,
            offset: be_value(buf.subrange(45, 53)) as u64,
        }
    }

    /// Writes what the authentication code covers.
    pub fn signed_bytes(&self) -> (out: Vec<u8>)
        ensures
            out@ == self.signed(),
    {
        let mut out: Vec<u8> = Vec::new();
        put_u32_be(&mut out, self.session_id);
        put_u32_be(&mut out, self.file_id);
        put_u64_be(&mut out, self.offset);
        assert(out@ =~= self.signed());
        out
    }

    /// Writes the request with a given authentication code.
    pub fn encode_with(&self, code: &[u8; 32]) -> (out: Vec<u8>)
        ensures
            out@ == self.wire(code@),
    {
        let mut out: Vec<u8> = Vec::new();
        out.push(0x4c);
        out.push(0x4d);
        out.push(0x46);
        out.push(0x44);
        out.push(DATA_VER);
        append_bytes(&mut out, code.as_slice());
        let signed: Vec<u8> = self.signed_bytes();
        append_bytes(&mut out, signed.as_slice());
        assert(out@ =~= self.wire(code@));
        out
    }

    /// Writes the request, authenticated with a key.
    pub fn encode(&self, key: &[u8]) -> (out: Vec<u8>)
        ensures
            out@ == self.wire(hmac_sha256_code(key@, self.signed())@),
    {
        let signed: Vec<u8> = self.signed_bytes();
        let code: [u8; 32] = hmac_sha256(key, signed.as_slice());
        self.encode_with(&code)
    }

    /// Reads a request without regard to its authentication code.
    pub fn decode(buf: &[u8]) -> (r: Result<DataReq, String>)
        ensures
            match r {
                Ok(req) => request_fault(buf@) is None && req == DataReq::fields_of(buf@),
                Err(m) => request_fault(buf@) == Some(m@),
            },
    {
        let n: usize = buf.len();
        if n != REQUEST_SIZE {
            let mut m: String = "bad handshake len ".to_owned();
            let digits: String = decimal_string(n as u64);
            m.append(digits.as_str());
            return Err(m);
        }
        let magic: bool = buf[0] == 0x4c && buf[1] == 0x4d && buf[2] == 0x46 && buf[3] == 0x44;
        proof {
            assert(magic == (buf@.take(4) =~= data_magic())) by {
                if buf@.take(4) == data_magic() {
                    assert(buf@.take(4)[0] == buf@[0] && data_magic()[0] == 0x4c);
                    assert(buf@.take(4)[1] == buf@[1] && data_magic()[1] == 0x4d);
                    assert(buf@.take(4)[2] == buf@[2] && data_magic()[2] == 0x46);
                    assert(buf@.take(4)[3] == buf@[3] && data_magic()[3] == 0x44);
                }
            }
        }
        if !magic {
            return Err("bad magic".to_owned());
        }
        if buf[4] != DATA_VER {
            return Err("bad ver".to_owned());
        }
        Ok(
            DataReq {
                session_id: get_u32_be(buf, 37),
                file_id: get_u32_be(buf, 41),
                offset: get_u64_be(buf, 45),
            },
        )
    }

    /// Accepts a request whose authentication code matches.
    pub fn accept(self, code_matches: bool) -> (r: Result<DataReq, String>)
        ensures
            match r {
                Ok(req) => code_matches && req == self,
                Err(m) => !code_matches && m@ == "hmac mismatch"@,
            },
    {
        if code_matches {
            Ok(self)
        } else {
            Err("hmac mismatch".to_owned())
        }
    }

    /// Does the authentication code of a well-formed request match?
    pub open spec fn authentic(buf: Seq<u8>, key: Seq<u8>) -> bool {
        buf.subrange(5, 37) == hmac_sha256_code(key, DataReq::fields_of(buf).signed())@
    }

    /// Reads a request and checks its authentication code.
    pub fn decode_and_verify(buf: &[u8], key: &[u8]) -> (r: Result<DataReq, String>)
        ensures
            match r {
                Ok(req) => request_fault(buf@) is None && DataReq::authentic(buf@, key@) && req
                    == DataReq::fields_of(buf@),
                Err(m) => match request_fault(buf@) {
                    Some(why) => m@ == why,
                    None => !DataReq::authentic(buf@, key@) && m@ == "hmac mismatch"@,
                },
            },
    {
        match DataReq::decode(buf) {
            Err(m) => Err(m),
            Ok(req) => {
                let signed: Vec<u8> = req.signed_bytes();
                let code: &[u8] = vstd::slice::slice_subrange(buf, 5, 37);
                let code_matches: bool = hmac_sha256_matches(key, signed.as_slice(), code);
                req.accept(code_matches)
            },
        }
    }
}

/// A request that was written with a key is read with the same key as it was.
pub proof fn law_request_roundtrip(req: DataReq, key: Seq<u8>)
    ensures
        ({
            let buf = req.wire(hmac_sha256_code(key, req.signed())@);
            &&& request_fault(buf) is None
            &&& DataReq::fields_of(buf) == req
            &&& DataReq::authentic(buf, key)
        }),
{
    let code = hmac_sha256_code(key, req.signed())@;
    let buf = req.wire(code);
    lemma_byte_ranges();
    lemma_be_bytes_len(req.session_id as nat, 4);
    lemma_be_bytes_len(req.file_id as nat, 4);
    lemma_be_bytes_len(req.offset as nat, 8);
    lemma_be_value_of_bytes(req.session_id as nat, 4);
    lemma_be_value_of_bytes(req.file_id as nat, 4);
    lemma_be_value_of_bytes(req.offset as nat, 8);
    assert(buf.len() == 53);
    assert(buf.take(4) =~= data_magic());
    assert(buf[4] == DATA_VER);
    assert(buf.subrange(5, 37) =~= code);
    assert(buf.subrange(37, 41) =~= be_bytes(req.session_id as nat, 4));
    assert(buf.subrange(41, 45) =~= be_bytes(req.file_id as nat, 4));
    assert(buf.subrange(45, 53) =~= be_bytes(req.offset as nat, 8));
}

/// The greeting that opens the authentication of a control connection.
pub open spec fn hello_bytes(nonce: Seq<u8>) -> Seq<u8> {
    ctrl_magic() + seq![CTRL_VER] + nonce
}

/// Is a greeting well-formed?
pub open spec fn good_hello(hello: Seq<u8>) -> bool {
    hello.take(4) == ctrl_magic() && hello[4] == CTRL_VER
}

/// The nonce of a greeting that is to be answered. The own nonce is not: its answer, sent back,
/// would pass for the peer's.
pub open spec fn challenge(hello: Seq<u8>, own_nonce: Seq<u8>) -> Option<Seq<u8>> {
    if good_hello(hello) && hello.subrange(5, 21) != own_nonce {
        Some(hello.subrange(5, 21))
    } else {
        None
    }
}

/// Is a peer authentic that has sent a greeting, and a response to the own nonce?
pub open spec fn peer_is_authentic(
    key: Seq<u8>,
    own_nonce: Seq<u8>,
    hello: Seq<u8>,
    response: Seq<u8>,
) -> bool {
    challenge(hello, own_nonce) is Some && response == hmac_sha256_code(key, own_nonce)@
}

/// Writes a greeting with a nonce.
pub fn control_hello(nonce: &[u8; 16]) -> (out: Vec<u8>)
    ensures
        out@ == hello_bytes(nonce@),
{
    let mut out: Vec<u8> = Vec::new();
    out.push(0x4c);
    out.push(0x4d);
    out.push(0x43);
    out.push(0x41);
    out.push(CTRL_VER);
    append_bytes(&mut out, nonce.as_slice());
    assert(out@ =~= hello_bytes(nonce@));
    out
}

/// Reads the nonce of the peer's greeting.
pub fn peer_nonce(hello: &[u8; HELLO_SIZE]) -> (r: Result<Vec<u8>, String>)
    ensures
        match r {
            Ok(nonce) => good_hello(hello@) && nonce@ == hello@.subrange(5, 21),
            Err(m) => !good_hello(hello@) && m@ == "bad control auth hello"@,
        },
{
    let buf: &[u8] = hello.as_slice();
    let good: bool = buf[0] == 0x4c && buf[1] == 0x4d && buf[2] == 0x43 && buf[3] == 0x41 && buf[4]
        == CTRL_VER;
    proof {
        assert(good == good_hello(hello@)) by {
            if hello@.take(4) == ctrl_magic() {
                assert(hello@.take(4)[0] == hello@[0] && ctrl_magic()[0] == 0x4c);
                assert(hello@.take(4)[1] == hello@[1] && ctrl_magic()[1] == 0x4d);
                assert(hello@.take(4)[2] == hello@[2] && ctrl_magic()[2] == 0x43);
                assert(hello@.take(4)[3] == hello@[3] && ctrl_magic()[3] == 0x41);
            }
            if good {
                assert(hello@.take(4) =~= ctrl_magic());
            }
        }
    }
    if !good {
        return Err("bad control auth hello".to_owned());
    }
    Ok(vstd::slice::slice_to_vec(vstd::slice::slice_subrange(buf, 5, 21)))
}

/// Reads the nonce of the peer's greeting that is to be answered. A greeting with the own nonce is
/// refused: a peer without the key could send that nonce and its answer straight back.
pub fn peer_challenge(hello: &[u8; HELLO_SIZE], own_nonce: &[u8; 16]) -> (r: Result<
    Vec<u8>,
    String,
>)
    ensures
        match r {
            Ok(nonce) => challenge(hello@, own_nonce@) == Some(nonce@),
            Err(m) => challenge(hello@, own_nonce@) is None && m@ == if good_hello(hello@) {
                "control auth failed"@
            } else {
                "bad control auth hello"@
            },
        },
{
    let nonce: Vec<u8> = peer_nonce(hello)?;
    let n: usize = nonce.len();
    let mut i: usize = 0;
    while i < n
        invariant
            i <= n,
            n == nonce@.len(),
            n == 16,
            nonce@ == hello@.subrange(5, 21),
            good_hello(hello@),
            forall|k: int| 0 <= k < i ==> nonce@[k] == own_nonce@[k],
        decreases n - i,
    {
        if nonce[i] != own_nonce[i] {
            assert(nonce@[i as int] != own_nonce@[i as int]);
            return Ok(nonce);
        }
        i = i + 1;
    }
    assert(nonce@ =~= own_nonce@);
    Err("control auth failed".to_owned())
}

/// The answer to a nonce: its authentication code.
pub fn control_response(key: &[u8], nonce: &[u8]) -> (code: [u8; 32])
    ensures
        code@ == hmac_sha256_code(key@, nonce@)@,
{
    hmac_sha256(key, nonce)
}

/// Accepts the peer where its answer matches.
pub fn accept_peer(code_matches: bool) -> (r: Result<(), String>)
    ensures
        match r {
            Ok(_) => code_matches,
            Err(m) => !code_matches && m@ == "control auth failed"@,
        },
{
    if code_matches {
        Ok(())
    } else {
        Err("control auth failed".to_owned())
    }
}

/// Checks the peer's answer to the own nonce.
pub fn verify_response(key: &[u8], own_nonce: &[u8; 16], response: &[u8; 32]) -> (r: Result<
    (),
    String,
>)
    ensures
        match r {
            Ok(_) => response@ == hmac_sha256_code(key@, own_nonce@)@,
            Err(m) => response@ != hmac_sha256_code(key@, own_nonce@)@ && m@
                == "control auth failed"@,
        },
{
    accept_peer(hmac_sha256_matches(key, own_nonce.as_slice(), response.as_slice()))
}

/// Two sides with the same key and different nonces accept each other: each answers the nonce in
/// the other's greeting, and the other finds that answer to be the right one.
pub proof fn law_same_key_is_accepted(key: Seq<u8>, own: Seq<u8>, peer: Seq<u8>)
    requires
        own.len() == 16,
        peer.len() == 16,
        own != peer,
    ensures
        challenge(hello_bytes(own), peer) == Some(own),
        challenge(hello_bytes(peer), own) == Some(peer),
        peer_is_authentic(key, own, hello_bytes(peer), hmac_sha256_code(key, own)@),
        peer_is_authentic(key, peer, hello_bytes(own), hmac_sha256_code(key, peer)@),
{
    assert(hello_bytes(own).take(4) =~= ctrl_magic());
    assert(hello_bytes(peer).take(4) =~= ctrl_magic());
    assert(hello_bytes(own).subrange(5, 21) =~= own);
    assert(hello_bytes(peer).subrange(5, 21) =~= peer);
}

/// Two sides whose keys give different codes for a nonce do not accept each other's answer to it.
pub proof fn law_other_key_is_refused(key: Seq<u8>, other: Seq<u8>, own: Seq<u8>)
    requires
        own.len() == 16,
        hmac_sha256_code(other, own)@ != hmac_sha256_code(key, own)@,
    ensures
        hmac_sha256_code(other, hello_bytes(own).subrange(5, 21))@ != hmac_sha256_code(key, own)@,
        forall|hello: Seq<u8>|
            !(#[trigger] peer_is_authentic(key, own, hello, hmac_sha256_code(other, own)@)),
{
    assert(hello_bytes(own).subrange(5, 21) =~= own);
}

/// A peer that sends the own greeting back is refused, whatever it sends afterwards: nothing is
/// computed for it that it could send back as well.
pub proof fn law_own_greeting_is_refused(key: Seq<u8>, own: Seq<u8>, response: Seq<u8>)
    requires
        own.len() == 16,
    ensures
        good_hello(hello_bytes(own)),
        challenge(hello_bytes(own), own) is None,
        !peer_is_authentic(key, own, hello_bytes(own), response),
{
    assert(hello_bytes(own).take(4) =~= ctrl_magic());
    assert(hello_bytes(own).subrange(5, 21) =~= own);
}

/// A nonce that is not used twice: the time in nanoseconds and a running number.
pub fn make_ctrl_nonce(nanos: u64, count: u64) -> (nonce: Vec<u8>)
    ensures
        nonce@ == be_bytes(nanos as nat, 8) + be_bytes(count as nat, 8),
        nonce@.len() == 16,
{
    let mut nonce: Vec<u8> = Vec::new();
    put_u64_be(&mut nonce, nanos);
    put_u64_be(&mut nonce, count);
    proof {
        lemma_be_bytes_len(nanos as nat, 8);
        lemma_be_bytes_len(count as nat, 8);
        assert(nonce@ =~= be_bytes(nanos as nat, 8) + be_bytes(count as nat, 8));
    }
    nonce
}

/// Nonces made at different times, or with different running numbers, are different.
pub proof fn law_nonces_are_fresh(nanos1: u64, count1: u64, nanos2: u64, count2: u64)
    requires
        be_bytes(nanos1 as nat, 8) + be_bytes(count1 as nat, 8) == be_bytes(nanos2 as nat, 8)
            + be_bytes(count2 as nat, 8),
    ensures
        nanos1 == nanos2,
        count1 == count2,
{
    lemma_byte_ranges();
    lemma_be_bytes_len(nanos1 as nat, 8);
    lemma_be_bytes_len(nanos2 as nat, 8);
    lemma_be_bytes_len(count1 as nat, 8);
    lemma_be_bytes_len(count2 as nat, 8);
    let a = be_bytes(nanos1 as nat, 8) + be_bytes(count1 as nat, 8);
    let b = be_bytes(nanos2 as nat, 8) + be_bytes(count2 as nat, 8);
    assert(a.take(8) =~= be_bytes(nanos1 as nat, 8));
    assert(b.take(8) =~= be_bytes(nanos2 as nat, 8));
    assert(a.skip(8) =~= be_bytes(count1 as nat, 8));
    assert(b.skip(8) =~= be_bytes(count2 as nat, 8));
    lemma_be_value_of_bytes(nanos1 as nat, 8);
    lemma_be_value_of_bytes(nanos2 as nat, 8);
    lemma_be_value_of_bytes(count1 as nat, 8);
    lemma_be_value_of_bytes(count2 as nat, 8);
}

/// A request has fifty-three bytes: four that name it, its version, the authentication code, and
/// then the session, the file and the offset, each with its most significant byte first. The code
/// covers the last three.
pub proof fn law_request_layout(req: DataReq, code: Seq<u8>)
    requires
        code.len() == 32,
    ensures
        ({
            let w = req.wire(code);
            &&& w.len() == 53
            &&& w[0] == 'L' as int && w[1] == 'M' as int && w[2] == 'F' as int && w[3] == 'D' as int
            &&& w[4] == 1
            &&& w.subrange(5, 37) == code
            &&& be_value(w.subrange(37, 41)) == req.session_id
            &&& be_value(w.subrange(41, 45)) == req.file_id
            &&& be_value(w.subrange(45, 53)) == req.offset
            &&& req.signed() == w.subrange(37, 53)
        }),
{
    let w = req.wire(code);
    lemma_byte_ranges();
    lemma_be_bytes_len(req.session_id as nat, 4);
    lemma_be_bytes_len(req.file_id as nat, 4);
    lemma_be_bytes_len(req.offset as nat, 8);
    lemma_be_value_of_bytes(req.session_id as nat, 4);
    lemma_be_value_of_bytes(req.file_id as nat, 4);
    lemma_be_value_of_bytes(req.offset as nat, 8);
    assert(w.subrange(5, 37) =~= code);
    assert(w.subrange(37, 41) =~= be_bytes(req.session_id as nat, 4));
    assert(w.subrange(41, 45) =~= be_bytes(req.file_id as nat, 4));
    assert(w.subrange(45, 53) =~= be_bytes(req.offset as nat, 8));
    assert(req.signed() =~= w.subrange(37, 53));
}

/// A request is well-formed if and only if it has its length, its four first bytes and its version;
/// the rest may be any bytes, and is read as session, file and offset.
pub proof fn law_well_formed_requests(buf: Seq<u8>)
    ensures
        request_fault(buf) is None <==> buf.len() == 53 && buf[0] == 'L' as int && buf[1]
            == 'M' as int && buf[2] == 'F' as int && buf[3] == 'D' as int && buf[4] == 1,
        buf.len() == 53 && request_fault(buf) is Some ==> request_fault(buf) == Some(
            if buf[0] == 'L' as int && buf[1] == 'M' as int && buf[2] == 'F' as int && buf[3]
                == 'D' as int {
                "bad ver"@
            } else {
                "bad magic"@
            },
        ),
        buf.len() != 53 ==> request_fault(buf) == Some("bad handshake len "@ + decimal(buf.len())),
        buf.len() == 53 ==> {
            let r = DataReq::fields_of(buf);
            &&& be_bytes(r.session_id as nat, 4) == buf.subrange(37, 41)
            &&& be_bytes(r.file_id as nat, 4) == buf.subrange(41, 45)
            &&& be_bytes(r.offset as nat, 8) == buf.subrange(45, 53)
        },
{
    if buf.len() == 53 {
        let head = buf.take(4);
        if buf[0] == 'L' as int && buf[1] == 'M' as int && buf[2] == 'F' as int && buf[3]
            == 'D' as int {
            assert(head =~= data_magic());
        }
        if head == data_magic() {
            assert(head[0] == buf[0] && head[1] == buf[1] && head[2] == buf[2] && head[3] == buf[3]);
        }
        lemma_byte_ranges();
        lemma_be_bytes_of_value(buf.subrange(37, 41));
        lemma_be_bytes_of_value(buf.subrange(41, 45));
        lemma_be_bytes_of_value(buf.subrange(45, 53));
    }
}

/// A request is authentic if and only if its code is the one of its last sixteen bytes under the key.
pub proof fn law_code_covers_the_request(buf: Seq<u8>, key: Seq<u8>)
    requires
        buf.len() == 53,
    ensures
        DataReq::authentic(buf, key) <==> buf.subrange(5, 37) == hmac_sha256_code(
            key,
            buf.subrange(37, 53),
        )@,
{
    law_well_formed_requests(buf);
    assert(DataReq::fields_of(buf).signed() =~= buf.subrange(37, 53));
}

/// A greeting has twenty-one bytes: four that name it, its version, and the nonce.
pub proof fn law_greeting_layout(nonce: Seq<u8>)
    requires
        nonce.len() == 16,
    ensures
        ({
            let h = hello_bytes(nonce);
            &&& h.len() == 21
            &&& h[0] == 'L' as int && h[1] == 'M' as int && h[2] == 'C' as int && h[3] == 'A' as int
            &&& h[4] == 1
            &&& h.subrange(5, 21) == nonce
        }),
{
    assert(hello_bytes(nonce).subrange(5, 21) =~= nonce);
}

/// A greeting is answered if and only if it starts as a greeting does and its nonce is not the own
/// one; what is answered is that nonce.
pub proof fn law_answered_greetings(hello: Seq<u8>, own: Seq<u8>)
    requires
        hello.len() == 21,
    ensures
        ({
            let starts = hello[0] == 'L' as int && hello[1] == 'M' as int && hello[2] == 'C' as int
                && hello[3] == 'A' as int && hello[4] == 1;
            let nonce = hello.subrange(5, 21);
            &&& good_hello(hello) <==> starts
            &&& starts && nonce != own ==> challenge(hello, own) == Some(nonce)
            &&& !starts || nonce == own ==> challenge(hello, own) is None
        }),
{
    let head = hello.take(4);
    if hello[0] == 'L' as int && hello[1] == 'M' as int && hello[2] == 'C' as int && hello[3]
        == 'A' as int {
        assert(head =~= ctrl_magic());
    }
    if head == ctrl_magic() {
        assert(head[0] == hello[0] && head[1] == hello[1] && head[2] == hello[2] && head[3]
            == hello[3]);
    }
}

/// A peer is authentic if and only if its greeting is answered and its own answer is the code of the
/// nonce that it was sent.
pub proof fn law_authentic_peers(
    key: Seq<u8>,
    own: Seq<u8>,
    hello: Seq<u8>,
    response: Seq<u8>,
)
    ensures
        challenge(hello, own) is Some ==> (peer_is_authentic(key, own, hello, response)
            <==> response == hmac_sha256_code(key, own)@),
        challenge(hello, own) is None ==> !peer_is_authentic(key, own, hello, response),
{
}

} // verus!

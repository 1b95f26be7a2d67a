//! Fetching the contents of an offered file on demand.
use crate::clipsync::handshake::DataReq;
use crate::mac::hmac_sha256_code;
use crate::text::{decimal, decimal_string};
use vstd::prelude::*;
use vstd::string::StringExecFns;

verus! {

/// The reading end of a file: where its contents are fetched, and how far it has been read. It is
/// connected once the first byte is wanted.
pub struct FilePuller {
    target: String,
    key: Vec<u8>,
    session_id: u32,
    file_id: u32,
    offset: u64,
    connected: bool,
}

/// What a reading end stands for.
#[verifier::ext_equal]
pub struct PullerModel {
    pub target: Seq<char>,
    pub key: Seq<u8>,
    pub session_id: u32,
    pub file_id: u32,
    pub offset: u64,
    pub connected: bool,
}

impl View for FilePuller {
    type V = PullerModel;

    closed spec fn view(&self) -> PullerModel {
        PullerModel {
            target: self.target@,
            key: self.key@,
            session_id: self.session_id,
            file_id: self.file_id,
            offset: self.offset,
            connected: self.connected,
        }
    }
}

impl PullerModel {
    /// The request for the contents from where reading stands.
    pub open spec fn request(self) -> DataReq {
        DataReq { session_id: self.session_id, file_id: self.file_id, offset: self.offset }
    }

    /// The reading end moved to an offset. Staying in place keeps the connection, and moving gives
    /// it up.
    pub open spec fn at(self, offset: u64) -> PullerModel {
        if offset == self.offset {
            self
        } else {
            PullerModel { offset: offset, connected: false, ..self }
        }
    }
}

impl FilePuller {
    /// A reading end at the beginning of a file, not connected yet.
    pub fn new(target: String, key: Vec<u8>, session_id: u32, file_id: u32) -> (p: FilePuller)
        ensures
            p@ == (PullerModel {
                target: target@,
                key: key@,
                session_id: session_id,
                file_id: file_id,
                offset: 0,
                connected: false,
            }),
    {
        FilePuller {
            target: target,
            key: key,
            session_id: session_id,
            file_id: file_id,
            offset: 0,
            connected: false,
        }
    }

    /// Where in the file the next byte to be read is.
    pub fn offset(&self) -> (n: u64)
        ensures
            n == self@.offset,
    {
        self.offset
    }

    /// Is there a connection?
    pub fn is_connected(&self) -> (b: bool)
        ensures
            b == self@.connected,
    {
        self.connected
    }

    /// The address to connect to.
    pub fn target(&self) -> (s: &str)
        ensures
            s@ == self@.target,
    {
        self.target.as_str()
    }

    /// The request to send over a new connection.
    pub fn request(&self) -> (out: Vec<u8>)
        ensures
            out@ == self@.request().wire(
                hmac_sha256_code(self@.key, self@.request().signed())@,
            ),
    {
        let req: DataReq = DataReq {
            session_id: self.session_id,
            file_id: self.file_id,
            offset: self.offset,
        };
        req.encode(self.key.as_slice())
    }

    /// Takes the answer to the request: zero opens the connection, anything else refuses it.
    pub fn accept_status(&mut self, status: u8) -> (r: Result<(), String>)
        ensures
            r is Ok == (status == 0),
            r matches Err(m) ==> m@ == "server status "@ + decimal(status as nat) && final(self)@
                == old(self)@,
            r is Ok ==> final(self)@ == (PullerModel { connected: true, ..old(self)@ }),
    {
        if status != 0 {
            let mut m: String = "server status ".to_owned();
            let digits: String = decimal_string(status as u64);
            m.append(digits.as_str());
            return Err(m);
        }
        self.connected = true;
        Ok(())
    }

    /// Notes that some bytes have been read.
    pub fn advance(&mut self, n: u64)
        requires
            old(self)@.offset + n <= u64::MAX,
        ensures
            final(self)@ == (PullerModel { offset: (old(self)@.offset + n) as u64, ..old(self)@ }),
    {
        self.offset = self.offset + n;
    }

    /// Moves to an offset: the next byte is then fetched over a new connection, unless that is
    /// where reading stands already.
    pub fn seek_to(&mut self, new_offset: u64)
        ensures
            final(self)@ == old(self)@.at(new_offset),
    {
        if new_offset == self.offset {
            return ;
        }
        self.connected = false;
        self.offset = new_offset;
    }
}

/// What a stream answers.
#[derive(Clone, Copy, Debug, PartialEq, Eq, Structural)]
pub enum StreamStatus {
    /// Some bytes were read.
    Good,
    /// The end has been reached.
    EndOfFile,
    /// Reading failed.
    ReadFault,
}

/// The two's complement value of a 64-bit pattern.
pub open spec fn signed64(n: u64) -> int {
    if n < 0x8000_0000_0000_0000 {
        n as int
    } else {
        n - 0x1_0000_0000_0000_0000
    }
}

fn to_signed64(n: u64) -> (r: i64)
    ensures
        r == signed64(n),
{
    if n < 0x8000_0000_0000_0000 {
        n as i64
    } else {
        (n as i128 - 0x1_0000_0000_0000_0000) as i64
    }
}

/// Where a move of `by` leads that counts from `origin`: from the beginning, from where reading
/// stands, or from the end.
pub open spec fn seek_sum(offset: u64, size: u64, by: i64, origin: u32) -> Option<int> {
    if origin == 0 {
        Some(by as int)
    } else if origin == 1 {
        Some(signed64(offset) + by)
    } else if origin == 2 {
        Some(signed64(size) + by)
    } else {
        None
    }
}

/// A stream over the contents of an offered file, whose size is known.
pub struct NetStream {
    pub puller: FilePuller,
    pub size: u64,
}

/// Opens a stream at the beginning of an offered file.
pub fn new_com_stream(
    target: String,
    key: Vec<u8>,
    session_id: u32,
    file_id: u32,
    size: u64,
) -> (s: NetStream)
    ensures
        s.size == size,
        s.puller@ == (PullerModel {
            target: target@,
            key: key@,
            session_id: session_id,
            file_id: file_id,
            offset: 0,
            connected: false,
        }),
{
    NetStream { puller: FilePuller::new(target, key, session_id, file_id), size: size }
}

impl NetStream {
    /// Ends a read that has got some bytes, or failed. A file that ends before its size is reached
    /// is a failure, so that half a file is never taken for a whole one.
    pub fn finish_read(&mut self, got: Option<u32>) -> (r: (StreamStatus, u32))
        requires
            got matches Some(n) ==> old(self).puller@.offset + n <= u64::MAX,
        ensures
            final(self).size == old(self).size,
            match got {
                Some(n) => {
                    &&& final(self).puller@ == (PullerModel {
                        offset: (old(self).puller@.offset + n) as u64,
                        ..old(self).puller@
                    })
                    &&& r.1 == n
                    &&& r.0 == if n > 0 {
                        StreamStatus::Good
                    } else if old(self).puller@.offset < old(self).size {
                        StreamStatus::ReadFault
                    } else {
                        StreamStatus::EndOfFile
                    }
                },
                None => final(self).puller@ == old(self).puller@ && r == (
                    StreamStatus::ReadFault,
                    0u32,
                ),
            },
    {
        match got {
            Some(n) => {
                self.puller.advance(n as u64);
                if n > 0 {
                    (StreamStatus::Good, n)
                } else if self.puller.offset() < self.size {
                    (StreamStatus::ReadFault, 0)
                } else {
                    (StreamStatus::EndOfFile, 0)
                }
            },
            None => (StreamStatus::ReadFault, 0),
        }
    }

    /// Moves in the file, never to before its beginning, and says where to; an origin that is not
    /// known is refused.
    pub fn seek(&mut self, by: i64, origin: u32) -> (r: Option<u64>)
        requires
            seek_sum(old(self).puller@.offset, old(self).size, by, origin) matches Some(sum)
                ==> i64::MIN <= sum <= i64::MAX,
        ensures
            final(self).size == old(self).size,
            match seek_sum(old(self).puller@.offset, old(self).size, by, origin) {
                Some(sum) => {
                    let to = if sum < 0 {
                        0u64
                    } else {
                        sum as u64
                    };
                    r == Some(to) && final(self).puller@ == old(self).puller@.at(to)
                },
                None => r is None && final(self).puller@ == old(self).puller@,
            },
    {
        let sum: i64 = if origin == 0 {
            by
        } else if origin == 1 {
            to_signed64(self.puller.offset()) + by
        } else if origin == 2 {
            to_signed64(self.size) + by
        } else {
            return None;
        };
        let to: u64 = if sum < 0 {
            0
        } else {
            sum as u64
        };
        self.puller.seek_to(to);
        Some(to)
    }
}

/// Asking where reading stands, by a move of nothing from there, keeps the connection.
pub proof fn law_query_keeps_connection(p: PullerModel, size: u64)
    requires
        p.offset <= i64::MAX,
    ensures
        seek_sum(p.offset, size, 0, 1) == Some(p.offset as int),
        p.at(p.offset) == p,
{
}

/// Moving and moving back leads to the same place, and from there the same request is made.
pub proof fn law_seek_is_by_offset(p: PullerModel, there: u64)
    ensures
        p.at(there).offset == there,
        p.at(there).at(p.offset).request() == p.request(),
{
}

/// A request asks for the file and the session that the reading end was made for, from where reading
/// stands.
pub proof fn law_request_is_for_where_reading_stands(p: PullerModel, there: u64)
    ensures
        p.request().session_id == p.session_id,
        p.request().file_id == p.file_id,
        p.request().offset == p.offset,
        p.at(there).request().offset == there,
        p.at(there).request().file_id == p.file_id,
        p.at(there).request().session_id == p.session_id,
{
}

/// Moving elsewhere gives the connection up, and keeps what is read and from where.
pub proof fn law_moving_gives_the_connection_up(p: PullerModel, there: u64)
    ensures
        p.at(there).offset == there,
        there != p.offset ==> !p.at(there).connected,
        there == p.offset ==> p.at(there).connected == p.connected,
        p.at(there).target == p.target,
        p.at(there).key == p.key,
        p.at(there).session_id == p.session_id,
        p.at(there).file_id == p.file_id,
{
}

/// A move counts from the beginning, from where reading stands, or from the end; other origins are
/// not known.
pub proof fn law_moves_count_from_their_origin(offset: u64, size: u64, by: i64, origin: u32)
    requires
        offset <= i64::MAX,
        size <= i64::MAX,
    ensures
        seek_sum(offset, size, by, 0) == Some(by as int),
        seek_sum(offset, size, by, 1) == Some(offset + by),
        seek_sum(offset, size, by, 2) == Some(size + by),
        origin > 2 ==> seek_sum(offset, size, by, origin) is None,
{
}

/// A pattern is read as a signed number, which is the same modulo two to the sixty-fourth power.
pub proof fn law_patterns_are_signed(n: u64)
    ensures
        i64::MIN <= signed64(n) <= i64::MAX,
        (n - signed64(n)) % 0x1_0000_0000_0000_0000 == 0,
{
}

} // verus!

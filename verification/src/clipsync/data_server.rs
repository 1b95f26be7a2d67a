//! Serving the contents of offered files.
use crate::clipsync::handshake::{request_fault, DataReq};
use crate::clipsync::walk::{found_in, BuiltOffer};
use std::collections::HashMap;
use vstd::prelude::*;

verus! {

broadcast use vstd::std_specs::hash::group_hash_axioms;

/// The contents follow.
pub const STATUS_OK: u8 = 0;

/// The session is over.
pub const STATUS_STALE: u8 = 1;

/// There is no such file.
pub const STATUS_NO_FILE: u8 = 2;

/// The file cannot be opened.
pub const STATUS_NOT_OPENED: u8 = 3;

/// What is offered at present: the session, and the paths of its files by their numbers.
pub struct ServerState {
    pub session_id: u32,
    pub paths: HashMap<u32, Vec<u8>>,
}

/// How a request is answered.
pub enum Answer {
    /// With a status, and nothing else.
    Refuse(u8),
    /// With the contents of a file from an offset on.
    Open(Vec<u8>, u64),
}

/// How a request is answered, with the path as a sequence of bytes.
pub enum AnswerModel {
    Refuse(u8),
    Open(Seq<u8>, u64),
}

impl Answer {
    /// The answer with its path as a sequence of bytes.
    pub open spec fn model(self) -> AnswerModel {
        match self {
            Answer::Refuse(status) => AnswerModel::Refuse(status),
            Answer::Open(path, offset) => AnswerModel::Open(path@, offset),
        }
    }
}

/// The answer to a request that is authentic: only files of the present session are served.
pub open spec fn answer_to(session_id: u32, paths: Map<u32, Vec<u8>>, req: DataReq) -> AnswerModel {
    if session_id != req.session_id {
        AnswerModel::Refuse(STATUS_STALE)
    } else if paths.contains_key(req.file_id) {
        AnswerModel::Open(paths[req.file_id]@, req.offset)
    } else {
        AnswerModel::Refuse(STATUS_NO_FILE)
    }
}

impl ServerState {
    /// Nothing is offered.
    pub fn new() -> (s: ServerState)
        ensures
            s.session_id == 0,
            s.paths@ == Map::<u32, Vec<u8>>::empty(),
    {
        ServerState { session_id: 0, paths: HashMap::new() }
    }

    /// Replaces what is offered.
    pub fn set_offer(&mut self, session_id: u32, paths: HashMap<u32, Vec<u8>>)
        ensures
            final(self).session_id == session_id,
            final(self).paths@ == paths@,
    {
        self.session_id = session_id;
        self.paths = paths;
    }

    /// Answers a request that is authentic.
    pub fn answer(&self, req: DataReq) -> (a: Answer)
        ensures
            a.model() == answer_to(self.session_id, self.paths@, req),
    {
        if self.session_id != req.session_id {
            return Answer::Refuse(STATUS_STALE);
        }
        match self.paths.get(&req.file_id) {
            Some(p) => Answer::Open(vstd::slice::slice_to_vec(p.as_slice()), req.offset),
            None => Answer::Refuse(STATUS_NO_FILE),
        }
    }

    /// Answers what was received. A request that is malformed or not authentic gets no answer at
    /// all.
    pub fn handle(&self, handshake: &[u8], key: &[u8]) -> (r: Option<Answer>)
        ensures
            r is Some == (request_fault(handshake@) is None && DataReq::authentic(
                handshake@,
                key@,
            )),
            r matches Some(a) ==> a.model() == answer_to(
                self.session_id,
                self.paths@,
                DataReq::fields_of(handshake@),
            ),
    {
        match DataReq::decode_and_verify(handshake, key) {
            Ok(req) => Some(self.answer(req)),
            Err(_) => None,
        }
    }
}

/// The status after an attempt to open a file.
pub fn open_status(opened: bool) -> (status: u8)
    ensures
        status == if opened {
            STATUS_OK
        } else {
            STATUS_NOT_OPENED
        },
{
    if opened {
        STATUS_OK
    } else {
        STATUS_NOT_OPENED
    }
}

/// Once another session is offered, a request for an earlier one is refused, whatever it asks for.
pub proof fn law_stale_session_is_refused(
    session_id: u32,
    paths: Map<u32, Vec<u8>>,
    req: DataReq,
)
    requires
        req.session_id != session_id,
    ensures
        answer_to(session_id, paths, req) == AnswerModel::Refuse(STATUS_STALE),
{
}

/// Only paths that are offered are ever opened.
pub proof fn law_only_offered_files_are_served(
    session_id: u32,
    paths: Map<u32, Vec<u8>>,
    req: DataReq,
    path: Seq<u8>,
    offset: u64,
)
    requires
        answer_to(session_id, paths, req) == AnswerModel::Open(path, offset),
    ensures
        paths.contains_key(req.file_id),
        path == paths[req.file_id]@,
        offset == req.offset,
        session_id == req.session_id,
{
}

/// Every file of a list can be fetched, from any offset: a request for it under the session of the
/// list is answered with its contents. A directory is not.
pub proof fn law_listed_files_can_be_fetched(offer: BuiltOffer, i: int, offset: u64)
    requires
        found_in(offer.manifest.entries@, offer.paths@).wf(),
        0 <= i < offer.manifest.entries@.len(),
    ensures
        ({
            let e = offer.manifest.entries@[i];
            let req = DataReq {
                session_id: offer.manifest.session_id,
                file_id: e.file_id,
                offset: offset,
            };
            answer_to(offer.manifest.session_id, offer.paths@, req) == if e.is_dir {
                AnswerModel::Refuse(STATUS_NO_FILE)
            } else {
                AnswerModel::Open(offer.paths@[e.file_id]@, offset)
            }
        }),
{
    let found = found_in(offer.manifest.entries@, offer.paths@);
    let e = offer.manifest.entries@[i];
    assert(found.entries[i].file_id == i);
    assert(found.entries[i] == e.model());
    assert(found.paths.contains_key(e.file_id) <==> offer.paths@.contains_key(e.file_id));
}

/// A request under the present session is answered with the file that has its number, from the
/// offset that it names; a number that no file has, and another session, are refused, each with its
/// own status.
pub proof fn law_requests_are_answered(
    session_id: u32,
    paths: Map<u32, Vec<u8>>,
    req: DataReq,
)
    ensures
        req.session_id == session_id && paths.contains_key(req.file_id) ==> answer_to(
            session_id,
            paths,
            req,
        ) == AnswerModel::Open(paths[req.file_id]@, req.offset),
        req.session_id == session_id && !paths.contains_key(req.file_id) ==> answer_to(
            session_id,
            paths,
            req,
        ) == AnswerModel::Refuse(2),
        req.session_id != session_id ==> answer_to(session_id, paths, req) == AnswerModel::Refuse(1),
{
}

/// The statuses that both sides know.
pub proof fn law_statuses_are_numbered()
    ensures
        STATUS_OK == 0,
        STATUS_STALE == 1,
        STATUS_NO_FILE == 2,
        STATUS_NOT_OPENED == 3,
{
}

} // verus!

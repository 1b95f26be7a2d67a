//! Keeping two clipboards the same without sending anything back and forth for ever.
use crate::bytes::be_value;
use crate::clipsync::data_object::{new_file_data_object, FileDataObject};
use crate::clipsync::data_server::{
    answer_to, law_stale_session_is_refused, AnswerModel, STATUS_STALE,
};
use crate::clipsync::frame::{
    encode_frame, frame_bytes, law_frame_is_read_as_written, offer_fits, FrameKind, HEADER_SIZE,
    MAX_FRAME_BYTES, MAX_OFFER_BYTES,
};
use crate::clipsync::handshake::DataReq;
use crate::clipsync::item::{law_item_roundtrip, text_digest, ClipboardItem, TYPE_TEXT};
use crate::clipsync::manifest::Manifest;
use crate::text::{chars_of, decimal, decimal_string, string_of};
use crate::utf8::utf8_error_text;
use vstd::prelude::*;
use vstd::string::StringExecFns;
use vstd::utf8::{decode_utf8, valid_utf8};

verus! {

/// What has been seen on the clipboard: the hash of the content that last came from the peer, and
/// the hash of the content that was last found.
#[derive(Clone, Copy, Debug, PartialEq, Eq, Structural)]
pub struct EchoGuard {
    pub synced: Option<u64>,
    pub seen: Option<u64>,
}

impl EchoGuard {
    /// The guard once content with a hash has been found, and whether it is news for the peer:
    /// neither what came from there, nor what was found before.
    pub open spec fn found(self, h: u64) -> (EchoGuard, bool) {
        (EchoGuard { seen: Some(h), ..self }, self.synced != Some(h) && self.seen != Some(h))
    }

    /// Is content with a hash to be sent to the peer? What just came from there is not.
    pub open spec fn lets_out(self, h: u64) -> bool {
        self.synced != Some(h)
    }

    /// The guard once content with a hash has come from the peer.
    pub open spec fn got(self, h: u64) -> EchoGuard {
        EchoGuard { synced: Some(h), ..self }
    }

    /// Nothing seen yet.
    pub fn new() -> (g: EchoGuard)
        ensures
            g == (EchoGuard { synced: None, seen: None }),
    {
        EchoGuard { synced: None, seen: None }
    }

    /// Takes in what is found on the clipboard, and says whether the peer is to be told.
    pub fn poll(&mut self, item: &ClipboardItem) -> (news: bool)
        ensures
            *final(self) == old(self).found(item.digest()).0,
            news == old(self).found(item.digest()).1,
            news == (old(self).synced != Some(item.digest()) && old(self).seen != Some(
                item.digest(),
            )),
    {
        let h: u64 = item.hash();
        let from_peer: bool = match self.synced {
            Some(s) => s == h,
            None => false,
        };
        let known: bool = match self.seen {
            Some(s) => s == h,
            None => false,
        };
        self.seen = Some(h);
        !from_peer && !known
    }

    /// Is an item to be sent to the peer? One that just came from there is not.
    pub fn sends(&self, item: &ClipboardItem) -> (b: bool)
        ensures
            b == self.lets_out(item.digest()),
            b == (self.synced != Some(item.digest())),
    {
        let h: u64 = item.hash();
        match self.synced {
            Some(s) => s != h,
            None => true,
        }
    }

    /// Notes that an item came from the peer.
    pub fn receive(&mut self, item: &ClipboardItem)
        ensures
            *final(self) == old(self).got(item.digest()),
    {
        self.synced = Some(item.hash());
    }
}

/// What came from the peer is never sent back: it is not news when it is found on the clipboard,
/// however often that is, and it would not be sent if it were.
pub proof fn law_no_echo(g: EchoGuard, item: ClipboardItem)
    ensures
        !g.got(item.digest()).found(item.digest()).1,
        !g.got(item.digest()).found(item.digest()).0.found(item.digest()).1,
        !g.got(item.digest()).lets_out(item.digest()),
        !g.got(item.digest()).found(item.digest()).0.lets_out(item.digest()),
{
}

/// Content that stays on the clipboard is news once.
pub proof fn law_news_once(g: EchoGuard, h: u64)
    ensures
        !g.found(h).0.found(h).1,
{
}

/// The frame that tells the peer of an item on the clipboard, unless the item just came from there.
pub fn item_frame(guard: &EchoGuard, item: &ClipboardItem) -> (r: Option<Vec<u8>>)
    ensures
        r is Some == guard.lets_out(item.digest()),
        r is None <==> guard.synced == Some(item.digest()),
        r matches Some(f) ==> f@ == frame_bytes(TYPE_TEXT, item.content()),
{
    if guard.sends(item) {
        let payload: Vec<u8> = item.payload();
        Some(encode_frame(item.type_byte(), payload.as_slice()))
    } else {
        None
    }
}

/// The frame that offers files, given their list in the form that goes over the wire. A list that
/// the peer would refuse as too large is not sent.
pub fn offer_frame(list: &[u8]) -> (r: Option<Vec<u8>>)
    ensures
        r is Some == (list@.len() <= MAX_OFFER_BYTES),
        r matches Some(f) ==> f@ == frame_bytes(FrameKind::FileOffer.code(), list@),
{
    if offer_fits(list.len()) {
        Some(encode_frame(FrameKind::FileOffer.type_byte(), list))
    } else {
        None
    }
}

/// What a peer makes of a frame: the type byte and the payload that it reads, where the length is
/// not too large.
pub open spec fn frame_read(frame: Seq<u8>) -> Option<(u8, Seq<u8>)> {
    let len = be_value(frame.subrange(1, 5));
    if len > MAX_FRAME_BYTES {
        None
    } else {
        Some((frame[0], frame.subrange(HEADER_SIZE as int, HEADER_SIZE + len)))
    }
}

/// Text that is sent arrives: the peer reads a text frame from it, and in it the text of the item.
pub proof fn law_text_arrives(item: ClipboardItem)
    requires
        item.content().len() <= MAX_FRAME_BYTES,
    ensures
        frame_read(frame_bytes(TYPE_TEXT, item.content())) == Some(
            (FrameKind::Text.code(), item.content()),
        ),
        valid_utf8(item.content()),
        decode_utf8(item.content()) == item.text(),
{
    law_frame_is_read_as_written(TYPE_TEXT, item.content());
    law_item_roundtrip(item);
    let f = frame_bytes(TYPE_TEXT, item.content());
    assert(f.subrange(5, 5 + item.content().len() as int) =~= f.skip(5));
}

/// An offer that is sent arrives: the peer reads an offer frame from it, and in it the list.
pub proof fn law_offer_arrives(list: Seq<u8>)
    requires
        list.len() <= MAX_OFFER_BYTES,
    ensures
        frame_read(frame_bytes(FrameKind::FileOffer.code(), list)) == Some(
            (FrameKind::FileOffer.code(), list),
        ),
{
    law_frame_is_read_as_written(FrameKind::FileOffer.code(), list);
    let f = frame_bytes(FrameKind::FileOffer.code(), list);
    assert(f.subrange(5, 5 + list.len() as int) =~= f.skip(5));
}

/// What a frame from the peer asks for.
pub enum FrameAction {
    /// Put an item on the clipboard.
    SetText(ClipboardItem),
    /// Nothing: the text is not valid, with the reason.
    BadText(String),
    /// Look at an offer of files.
    Offer(Vec<u8>),
    /// Withdraw an offer of files.
    Revoke,
    /// Nothing: the type is not known.
    Unknown,
}

/// What a frame from the peer asks for, with texts and lists as sequences.
pub enum FrameModel {
    SetText(Seq<char>),
    BadText(Seq<char>),
    Offer(Seq<u8>),
    Revoke,
    Unknown,
}

impl FrameAction {
    /// The action with its text or list as a sequence.
    pub open spec fn model(self) -> FrameModel {
        match self {
            FrameAction::SetText(item) => FrameModel::SetText(item.text()),
            FrameAction::BadText(m) => FrameModel::BadText(m@),
            FrameAction::Offer(list) => FrameModel::Offer(list@),
            FrameAction::Revoke => FrameModel::Revoke,
            FrameAction::Unknown => FrameModel::Unknown,
        }
    }
}

/// What a frame asks for, by its type: a text has to be valid, and a type that is not known asks for
/// nothing.
pub open spec fn asked_by(type_byte: u8, payload: Seq<u8>) -> FrameModel {
    if type_byte == FrameKind::Text.code() {
        if valid_utf8(payload) {
            FrameModel::SetText(decode_utf8(payload))
        } else {
            FrameModel::BadText("invalid utf-8 text: "@ + utf8_error_text(payload))
        }
    } else if type_byte == FrameKind::FileOffer.code() {
        FrameModel::Offer(payload)
    } else if type_byte == FrameKind::FileRevoke.code() {
        FrameModel::Revoke
    } else {
        FrameModel::Unknown
    }
}

/// The guard once a frame has come from the peer: a valid text is remembered, and nothing else is.
pub open spec fn guard_after(guard: EchoGuard, type_byte: u8, payload: Seq<u8>) -> EchoGuard {
    match asked_by(type_byte, payload) {
        FrameModel::SetText(text) => guard.got(text_digest(text)),
        _ => guard,
    }
}

/// Takes in a frame from the peer. Its text, if it is one and valid, is to be put on the clipboard
/// once, and is remembered as the peer's; any other frame leaves the guard as it is.
pub fn take_frame(guard: &mut EchoGuard, type_byte: u8, payload: Vec<u8>) -> (a: FrameAction)
    ensures
        a.model() == asked_by(type_byte, payload@),
        *final(guard) == guard_after(*old(guard), type_byte, payload@),
        a matches FrameAction::SetText(item) ==> *final(guard) == old(guard).got(item.digest()),
        !(a is SetText) ==> *final(guard) == *old(guard),
{
    let a: FrameAction = dispatch_frame(type_byte, payload);
    if let FrameAction::SetText(item) = &a {
        guard.receive(item);
    }
    a
}

/// A text that has come from the peer is put on the clipboard as it was sent, and never goes back.
pub proof fn law_received_text_stays_here(guard: EchoGuard, item: ClipboardItem)
    ensures
        asked_by(TYPE_TEXT, item.content()) == FrameModel::SetText(item.text()),
        !guard_after(guard, TYPE_TEXT, item.content()).lets_out(item.digest()),
        !guard_after(guard, TYPE_TEXT, item.content()).found(item.digest()).1,
{
    law_item_roundtrip(item);
}

/// A text that is not valid, and a frame of a type that is not known, change nothing: nothing is put
/// on the clipboard, and what is remembered stays.
pub proof fn law_bad_frame_changes_nothing(guard: EchoGuard, type_byte: u8, payload: Seq<u8>)
    requires
        type_byte != FrameKind::Text.code() || !valid_utf8(payload),
    ensures
        !(asked_by(type_byte, payload) is SetText),
        guard_after(guard, type_byte, payload) == guard,
{
}

/// Sorts out a frame by its type.
pub fn dispatch_frame(type_byte: u8, payload: Vec<u8>) -> (a: FrameAction)
    ensures
        a.model() == asked_by(type_byte, payload@),
{
    match FrameKind::from_type(type_byte) {
        Some(FrameKind::Text) => match ClipboardItem::from_frame(type_byte, payload) {
            Ok(item) => FrameAction::SetText(item),
            Err(m) => FrameAction::BadText(m),
        },
        Some(FrameKind::FileOffer) => FrameAction::Offer(payload),
        Some(FrameKind::FileRevoke) => FrameAction::Revoke,
        None => FrameAction::Unknown,
    }
}

/// What the thread that owns the clipboard is told.
pub enum OwnerMsg {
    /// Put an offer of files on the clipboard.
    SetOffer(Manifest),
    /// Take it off again.
    Clear,
}

/// Passes on an offer of files that is valid, and refuses any other.
pub fn accept_offer(m: Manifest) -> (r: Result<OwnerMsg, String>)
    ensures
        r is Ok == m.valid(),
        r matches Ok(msg) ==> msg == OwnerMsg::SetOffer(m),
        r matches Err(why) ==> m.refused_with(why@),
{
    match m.validate() {
        Ok(_) => Ok(OwnerMsg::SetOffer(m)),
        Err(why) => Err(why),
    }
}

/// What the owner of the clipboard meets next: a message or none, an end of messages, or a message
/// of the window system.
pub enum OwnerEvent {
    Message(OwnerMsg),
    NoMessage,
    Disconnected,
    WindowMessage(u32),
    NoWindowMessage,
}

/// What it does then.
pub enum OwnerAction {
    /// Put an object on the clipboard, then look for further messages.
    Publish(FileDataObject),
    /// Empty the clipboard, then look for further messages.
    Clear,
    /// Wait for the window system, for a while.
    Wait,
    /// Hand the message on to its window, then look for further ones.
    Dispatch,
    /// Look for messages again.
    Poll,
    /// End.
    Stop,
}

/// The message of the window system that ends a program.
pub const WM_QUIT: u32 = 0x12;

/// The numbers under which the formats of an offer are registered: its list, the contents of its
/// files, and what pasting does.
#[derive(Clone, Copy, Debug, PartialEq, Eq, Structural)]
pub struct OfferFormats {
    pub descriptor: u16,
    pub contents: u16,
    pub dropeffect: u16,
}

/// Decides what the owner of the clipboard does next. Objects fetch their contents from `target`,
/// with `key`.
pub fn run_owner(event: OwnerEvent, target: &String, key: &Vec<u8>, formats: OfferFormats) -> (a:
    OwnerAction)
    ensures
        match event {
            OwnerEvent::Message(OwnerMsg::SetOffer(m)) => a matches OwnerAction::Publish(o)
                && o.manifest == m && o.target@ == target@ && o.key@ == key@ && !o.async_mode
                && !o.operating && o.cf_descriptor == formats.descriptor && o.cf_contents
                == formats.contents && o.cf_dropeffect == formats.dropeffect,
            OwnerEvent::Message(OwnerMsg::Clear) => a is Clear,
            OwnerEvent::NoMessage => a is Wait,
            OwnerEvent::Disconnected => a is Stop,
            OwnerEvent::WindowMessage(msg) => if msg == WM_QUIT {
                a is Stop
            } else {
                a is Dispatch
            },
            OwnerEvent::NoWindowMessage => a is Poll,
        },
{
    match event {
        OwnerEvent::Message(OwnerMsg::SetOffer(m)) => OwnerAction::Publish(
            new_file_data_object(
                m,
                target.clone(),
                vstd::slice::slice_to_vec(key.as_slice()),
                formats.descriptor,
                formats.contents,
                formats.dropeffect,
            ),
        ),
        OwnerEvent::Message(OwnerMsg::Clear) => OwnerAction::Clear,
        OwnerEvent::NoMessage => OwnerAction::Wait,
        OwnerEvent::Disconnected => OwnerAction::Stop,
        OwnerEvent::WindowMessage(msg) => {
            if msg == WM_QUIT {
                OwnerAction::Stop
            } else {
                OwnerAction::Dispatch
            }
        },
        OwnerEvent::NoWindowMessage => OwnerAction::Poll,
    }
}

/// Which files are offered at present, by their hash, and the session of the last change.
#[derive(Clone, Copy, Debug, PartialEq, Eq, Structural)]
pub struct OfferGuard {
    pub session: u32,
    pub files: Option<u64>,
}

/// What a look at the clipboard leads to.
#[derive(Clone, Copy, Debug, PartialEq, Eq, Structural)]
pub enum OfferChange {
    /// Nothing is different.
    Same,
    /// Other files are offered, under a new session.
    Offer(u32),
    /// Nothing is offered any more, under a new session.
    Withdraw(u32),
}

impl OfferGuard {
    /// Nothing offered yet.
    pub fn new() -> (g: OfferGuard)
        ensures
            g == (OfferGuard { session: 0, files: None }),
    {
        OfferGuard { session: 0, files: None }
    }

    /// The guard, and what is to be done, once the clipboard has been found to hold files with a
    /// hash, or something else: an offer stands only as long as its files are on the clipboard.
    pub open spec fn looked(self, files: Option<u64>) -> (OfferGuard, OfferChange) {
        let next = (self.session + 1) as u32;
        if self.files == files {
            (self, OfferChange::Same)
        } else {
            (
                OfferGuard { session: next, files: files },
                if files is Some {
                    OfferChange::Offer(next)
                } else {
                    OfferChange::Withdraw(next)
                },
            )
        }
    }

    /// Takes in what is on the clipboard: files, by their hash, or something else.
    pub fn poll(&mut self, files: Option<u64>) -> (c: OfferChange)
        requires
            old(self).session < u32::MAX,
        ensures
            *final(self) == old(self).looked(files).0,
            c == old(self).looked(files).1,
    {
        let same: bool = match (self.files, files) {
            (Some(a), Some(b)) => a == b,
            (None, None) => true,
            _ => false,
        };
        if same {
            return OfferChange::Same;
        }
        self.files = files;
        self.session = self.session + 1;
        match files {
            Some(_) => OfferChange::Offer(self.session),
            None => OfferChange::Withdraw(self.session),
        }
    }
}

/// An offer is no longer served once other files, or something else, have been copied: a request
/// under its session is then refused.
pub proof fn law_replaced_offer_is_refused(
    g: OfferGuard,
    files: Option<u64>,
    paths: Map<u32, Vec<u8>>,
    req: DataReq,
)
    requires
        g.session < u32::MAX,
        g.files != files,
        req.session_id == g.session,
    ensures
        answer_to(g.looked(files).0.session, paths, req) == AnswerModel::Refuse(STATUS_STALE),
{
    law_stale_session_is_refused(g.looked(files).0.session, paths, req);
}

/// Looking again without a change leads to nothing.
pub proof fn law_unchanged_files_are_offered_once(g: OfferGuard, files: Option<u64>)
    requires
        g.session < u32::MAX,
    ensures
        g.looked(files).0.looked(files) == (g.looked(files).0, OfferChange::Same),
{
}

/// May files be offered at all? Without a key anyone could fetch them.
pub fn files_enabled(data_key: &str) -> (b: bool)
    ensures
        b == (data_key@.len() > 0),
{
    !data_key.is_empty()
}

/// Where the last colon of a text is, among its first `n` characters.
pub open spec fn last_colon(s: Seq<char>, n: int) -> Option<int>
    decreases n,
{
    if n <= 0 || n > s.len() {
        None
    } else if s[n - 1] == ':' {
        Some(n - 1)
    } else {
        last_colon(s, n - 1)
    }
}

/// The host that files are fetched from: that of the control connection, or else this machine.
pub open spec fn data_host(connect: Option<&str>) -> Seq<char> {
    match connect {
        Some(c) => match last_colon(c@, c@.len() as int) {
            Some(at) => c@.take(at),
            None => "127.0.0.1"@,
        },
        None => "127.0.0.1"@,
    }
}

fn host_part(connect: &str) -> (r: Option<String>)
    ensures
        match (r, last_colon(connect@, connect@.len() as int)) {
            (Some(h), Some(at)) => h@ == connect@.take(at),
            (None, None) => true,
            _ => false,
        },
{
    let chars: Vec<char> = chars_of(connect);
    let mut n: usize = chars.len();
    while n > 0 && chars[n - 1] != ':'
        invariant
            n <= chars@.len(),
            chars@ == connect@,
            last_colon(connect@, connect@.len() as int) == last_colon(connect@, n as int),
        decreases n,
    {
        n = n - 1;
    }
    if n == 0 {
        return None;
    }
    let host: &[char] = vstd::slice::slice_subrange(chars.as_slice(), 0, n - 1);
    assert(host@ =~= connect@.take(n - 1));
    Some(string_of(host))
}

/// The address that files are fetched from: a host and the port for file contents.
pub fn data_target(connect: Option<&str>, port: u16) -> (target: String)
    ensures
        target@ == data_host(connect) + ":"@ + decimal(port as nat),
{
    let host: Option<String> = match connect {
        Some(c) => host_part(c),
        None => None,
    };
    let mut target: String = match host {
        Some(h) => h,
        None => "127.0.0.1".to_owned(),
    };
    target.append(":");
    let digits: String = decimal_string(port as u64);
    target.append(digits.as_str());
    target
}

/// Only what last came from the peer is held back: any other content is let out, and so is all
/// content while nothing has come.
pub proof fn law_other_content_goes_out(g: EchoGuard, x: u64, y: u64)
    requires
        x != y,
    ensures
        g.got(y).lets_out(x),
        g.got(y).found(x).0.lets_out(x),
        g.synced is None ==> g.lets_out(x),
        g.got(y).got(x).lets_out(y),
{
}

/// A text that is copied here after another one came from the peer is news, and goes out.
pub proof fn law_new_text_is_news(g: EchoGuard, x: u64, y: u64)
    requires
        x != y,
    ensures
        g.seen != Some(x) ==> g.got(y).found(x).1,
        g.got(y).found(y).0.found(x).1,
        (EchoGuard { synced: None, seen: None }).found(x).1,
        g.got(y).synced == Some(y),
        g.got(y).seen == g.seen,
        g.found(x).0.seen == Some(x),
        g.found(x).0.synced == g.synced,
{
}

/// Each kind of frame asks for its own thing, with its whole payload.
pub proof fn law_frames_ask_for_their_own_thing(payload: Seq<u8>)
    ensures
        valid_utf8(payload) ==> asked_by(0x01, payload) == FrameModel::SetText(
            decode_utf8(payload),
        ),
        !valid_utf8(payload) ==> asked_by(0x01, payload) == FrameModel::BadText(
            "invalid utf-8 text: "@ + utf8_error_text(payload),
        ),
        asked_by(0x10, payload) == FrameModel::Offer(payload),
        asked_by(0x11, payload) == FrameModel::Revoke,
        forall|t: u8|
            t != 0x01 && t != 0x10 && t != 0x11 ==> #[trigger] asked_by(t, payload)
                == FrameModel::Unknown,
{
}

/// Files that are new on the clipboard are offered under a session that was not used before;
/// anything else in their place ends the offer, under another such session.
pub proof fn law_new_files_are_offered(g: OfferGuard, h: u64)
    requires
        g.session < u32::MAX,
    ensures
        g.files != Some(h) ==> g.looked(Some(h)).1 == OfferChange::Offer((g.session + 1) as u32)
            && g.looked(Some(h)).0.session == g.session + 1 && g.looked(Some(h)).0.files == Some(h),
        g.files == Some(h) ==> g.looked(Some(h)) == (g, OfferChange::Same),
        g.files is Some ==> g.looked(None).1 == OfferChange::Withdraw((g.session + 1) as u32)
            && g.looked(None).0.session == g.session + 1 && g.looked(None).0.files is None,
        g.files is None ==> g.looked(None) == (g, OfferChange::Same),
{
}

proof fn lemma_last_colon(s: Seq<char>, at: int, n: int)
    requires
        0 <= at < n <= s.len(),
        s[at] == ':',
        forall|i: int| at < i < n ==> #[trigger] s[i] != ':',
    ensures
        last_colon(s, n) == Some(at),
    decreases n,
{
    if n - 1 > at {
        assert(s[n - 1] != ':');
        lemma_last_colon(s, at, n - 1);
    }
}

proof fn lemma_no_colon(s: Seq<char>, n: int)
    requires
        n <= s.len(),
        forall|i: int| 0 <= i < s.len() ==> #[trigger] s[i] != ':',
    ensures
        last_colon(s, n) is None,
    decreases n,
{
    if n > 0 {
        assert(s[n - 1] != ':');
        lemma_no_colon(s, n - 1);
    }
}

/// Files are fetched from the host of the control connection, which is what precedes its last
/// colon; without one, from this machine.
pub proof fn law_files_come_from_the_connected_host(connect: &str, host: Seq<char>, port: Seq<char>)
    requires
        forall|i: int| 0 <= i < port.len() ==> #[trigger] port[i] != ':',
    ensures
        connect@ == host.push(':') + port ==> data_host(Some(connect)) == host,
        connect@ == port ==> data_host(Some(connect)) == "127.0.0.1"@,
        data_host(None) == "127.0.0.1"@,
{
    let s = connect@;
    if s == host.push(':') + port {
        let at = host.len() as int;
        assert(s[at] == ':');
        assert forall|i: int| at < i < s.len() implies #[trigger] s[i] != ':' by {
            assert(s[i] == port[i - at - 1]);
        }
        lemma_last_colon(s, at, s.len() as int);
        assert(s.take(at) =~= host);
    }
    if s == port {
        lemma_no_colon(s, s.len() as int);
    }
}

/// A text that comes from the peer is remembered by its hash, and no other frame is remembered.
pub proof fn law_received_text_is_remembered(guard: EchoGuard, type_byte: u8, payload: Seq<u8>)
    ensures
        valid_utf8(payload) ==> guard_after(guard, 0x01, payload) == (EchoGuard {
            synced: Some(text_digest(decode_utf8(payload))),
            seen: guard.seen,
        }),
        type_byte != 0x01 || !valid_utf8(payload) ==> guard_after(guard, type_byte, payload)
            == guard,
{
}

} // verus!

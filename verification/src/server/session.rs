//! A session: from the cursor reaching the edge of a client to the pointer coming back.
use crate::proto::event::{InputEvent, ProtoEvent};
use crate::server::address::PeerAddr;
use vstd::prelude::*;

verus! {

/// What the server is doing.
#[derive(Clone, Copy, Debug, PartialEq, Eq, Structural)]
pub enum State {
    /// Input goes to a client.
    Sending,
    /// Input may come from clients.
    Receiving,
    /// A client has been told that the cursor enters it, and has not acknowledged that yet.
    AwaitAck,
}

/// What input capture reports.
#[derive(Clone, Copy, Debug, PartialEq, Eq, Structural)]
pub enum CaptureEvent {
    /// The cursor has reached the edge of a client, and the pointer is held.
    Begin,
    /// Input for the client.
    Input(InputEvent),
}

/// What is to be done about it, in order.
#[derive(Clone, Copy, Debug, PartialEq, Eq, Structural)]
pub enum CaptureAction {
    /// Give the pointer back.
    Release,
    /// Give the pointer back and, once that has succeeded, end the session.
    EndSession,
    /// Start pinging the client.
    RestartPing,
    /// Run the command of the client that the cursor enters.
    SpawnHook(u64),
    /// Send an event.
    Send(ProtoEvent, PeerAddr),
}

/// The state of a session, and the client that it is with.
#[derive(Clone, Copy, Debug, PartialEq, Eq, Structural)]
pub struct Session {
    pub state: State,
    pub active: Option<u64>,
}

/// What a client is sent for an event, by the state of the session: further announcements of the
/// cursor until one is acknowledged, and a farewell once the pointer has come back.
pub open spec fn message(state: State, event: CaptureEvent) -> ProtoEvent {
    match (state, event) {
        (State::Sending, CaptureEvent::Input(e)) => ProtoEvent::Input(e),
        (State::Sending, CaptureEvent::Begin) => ProtoEvent::Enter(0),
        (State::AwaitAck, _) => ProtoEvent::Enter(0),
        (State::Receiving, _) => ProtoEvent::Leave(0),
    }
}

impl Session {
    /// The session once the pointer is held for a client that can be reached.
    pub open spec fn begun(self, handle: u64) -> Session {
        Session { state: State::AwaitAck, active: Some(handle) }
    }

    /// The session once the pointer has been given back.
    pub open spec fn ended(self) -> Session {
        Session { state: State::Receiving, ..self }
    }

    /// The session and the actions after an event of capture. Where the pointer is to be given back
    /// the session stays as it is until that has succeeded.
    pub open spec fn captured(
        self,
        handle: u64,
        event: CaptureEvent,
        connected: bool,
        release_bind: bool,
        addr: Option<PeerAddr>,
    ) -> (Session, Seq<CaptureAction>) {
        let s = if event is Begin && connected {
            self.begun(handle)
        } else {
            self
        };
        let announced = if event is Begin && connected {
            seq![CaptureAction::RestartPing, CaptureAction::SpawnHook(handle)]
        } else {
            Seq::empty()
        };
        if (event is Begin && !connected) || s.state is Receiving {
            (s, announced.push(CaptureAction::Release))
        } else if release_bind {
            (s, announced.push(CaptureAction::EndSession))
        } else {
            match addr {
                Some(a) => (s, announced.push(CaptureAction::Send(message(s.state, event), a))),
                None => (s, announced),
            }
        }
    }

    /// Handles an event of capture for a client: whether it can be reached, whether the keys that
    /// release the pointer are down, and its address where it has one.
    pub fn handle_capture_event(
        &mut self,
        handle: u64,
        event: CaptureEvent,
        connected: bool,
        release_bind: bool,
        addr: Option<PeerAddr>,
    ) -> (actions: Vec<CaptureAction>)
        ensures
            *final(self) == old(self).captured(handle, event, connected, release_bind, addr).0,
            actions@ == old(self).captured(handle, event, connected, release_bind, addr).1,
    {
        let ghost done = (*self).captured(handle, event, connected, release_bind, addr);
        let mut actions: Vec<CaptureAction> = Vec::new();
        if let CaptureEvent::Begin = event {
            if !connected {
                actions.push(CaptureAction::Release);
                assert(actions@ =~= done.1);
                return actions;
            }
            self.state = State::AwaitAck;
            self.active = Some(handle);
            actions.push(CaptureAction::RestartPing);
            actions.push(CaptureAction::SpawnHook(handle));
        }
        if self.state == State::Receiving {
            actions.push(CaptureAction::Release);
            assert(actions@ =~= done.1);
            return actions;
        }
        if release_bind {
            actions.push(CaptureAction::EndSession);
            assert(actions@ =~= done.1);
            return actions;
        }
        if let Some(a) = addr {
            let e: ProtoEvent = match self.state {
                State::Sending => match event {
                    CaptureEvent::Begin => ProtoEvent::Enter(0),
                    CaptureEvent::Input(input) => ProtoEvent::Input(input),
                },
                State::AwaitAck => ProtoEvent::Enter(0),
                State::Receiving => ProtoEvent::Leave(0),
            };
            actions.push(CaptureAction::Send(e, a));
        }
        assert(actions@ =~= done.1);
        actions
    }

    /// Notes that the pointer has been given back.
    pub fn released(&mut self)
        ensures
            *final(self) == old(self).ended(),
    {
        self.state = State::Receiving;
    }

    /// Ends a session, now that the pointer has been given back for it: the client gets a farewell
    /// where it has an address.
    pub fn end(&mut self, addr: Option<PeerAddr>) -> (farewell: Option<CaptureAction>)
        ensures
            *final(self) == old(self).ended(),
            farewell == match addr {
                Some(a) => Some(CaptureAction::Send(ProtoEvent::Leave(0), a)),
                None => None,
            },
    {
        self.released();
        match addr {
            Some(a) => Some(CaptureAction::Send(ProtoEvent::Leave(0), a)),
            None => None,
        }
    }
}

/// What follows an attempt to send: where the sending side is gone the pointer has to be given
/// back, and capture ends.
pub fn after_send(sent: bool) -> (r: (bool, bool))
    ensures
        r == (!sent, sent),
{
    (!sent, sent)
}

/// The pointer is never held for a client that cannot be reached: an attempt is answered by giving
/// it back, and nothing else.
pub proof fn law_unreachable_client_is_refused(
    s: Session,
    handle: u64,
    release_bind: bool,
    addr: Option<PeerAddr>,
)
    ensures
        s.captured(handle, CaptureEvent::Begin, false, release_bind, addr) == (
            s,
            seq![CaptureAction::Release],
        ),
{
    assert(Seq::<CaptureAction>::empty().push(CaptureAction::Release) =~= seq![
        CaptureAction::Release,
    ]);
}

/// Input is sent to a client only once it has acknowledged the cursor: while that is awaited, or
/// after the pointer has come back, no input goes out.
pub proof fn law_no_input_before_acknowledgement(
    s: Session,
    handle: u64,
    event: CaptureEvent,
    connected: bool,
    release_bind: bool,
    addr: Option<PeerAddr>,
)
    requires
        s.state != State::Sending || event is Begin || release_bind,
    ensures
        ({
            let actions = s.captured(handle, event, connected, release_bind, addr).1;
            forall|i: int|
                0 <= i < actions.len() ==> !(#[trigger] actions[i] matches CaptureAction::Send(
                    ProtoEvent::Input(_),
                    _,
                ))
        }),
{
}

/// The keys that release the pointer always do so, also from the session that they began in, and
/// nothing is sent before that. A session that is going on ends once it has succeeded.
pub proof fn law_release_keys_release(
    s: Session,
    handle: u64,
    event: CaptureEvent,
    connected: bool,
    addr: Option<PeerAddr>,
)
    ensures
        ({
            let (t, actions) = s.captured(handle, event, connected, true, addr);
            &&& actions.last() == if event is Begin && !connected || t.state is Receiving {
                CaptureAction::Release
            } else {
                CaptureAction::EndSession
            }
            &&& forall|i: int| 0 <= i < actions.len() ==> !(#[trigger] actions[i] is Send)
            &&& t.ended().state is Receiving
        }),
{
}

/// Captured input is forwarded as it is: while a client has the cursor, every event, of the pointer
/// or of the keyboard, is sent to its address and nothing else is done.
pub proof fn law_input_is_forwarded(
    s: Session,
    handle: u64,
    e: InputEvent,
    connected: bool,
    addr: Option<PeerAddr>,
)
    requires
        s.state == State::Sending,
    ensures
        s.captured(handle, CaptureEvent::Input(e), connected, false, addr).0 == s,
        s.captured(handle, CaptureEvent::Input(e), connected, false, addr).1 == match addr {
            Some(a) => seq![CaptureAction::Send(ProtoEvent::Input(e), a)],
            None => Seq::empty(),
        },
{
    if let Some(a) = addr {
        assert(Seq::<CaptureAction>::empty().push(CaptureAction::Send(ProtoEvent::Input(e), a))
            =~= seq![CaptureAction::Send(ProtoEvent::Input(e), a)]);
    }
}

/// A cursor that reaches the edge of a client is announced to it: the session is then with that
/// client and waits for its acknowledgement, whatever it was before.
pub proof fn law_cursor_is_announced(s: Session, handle: u64, addr: Option<PeerAddr>)
    ensures
        ({
            let r = s.captured(handle, CaptureEvent::Begin, true, false, addr);
            &&& r.0.state == State::AwaitAck
            &&& r.0.active == Some(handle)
            &&& r.1 == match addr {
                Some(a) => seq![
                    CaptureAction::RestartPing,
                    CaptureAction::SpawnHook(handle),
                    CaptureAction::Send(ProtoEvent::Enter(0), a),
                ],
                None => seq![CaptureAction::RestartPing, CaptureAction::SpawnHook(handle)],
            }
        }),
{
    let r = s.captured(handle, CaptureEvent::Begin, true, false, addr);
    if let Some(a) = addr {
        assert(r.1 =~= seq![
            CaptureAction::RestartPing,
            CaptureAction::SpawnHook(handle),
            CaptureAction::Send(ProtoEvent::Enter(0), a),
        ]);
    }
}

/// Until the client acknowledges, every event announces the cursor again and changes nothing.
pub proof fn law_announced_until_acknowledged(
    s: Session,
    handle: u64,
    e: InputEvent,
    connected: bool,
    a: PeerAddr,
)
    requires
        s.state == State::AwaitAck,
    ensures
        s.captured(handle, CaptureEvent::Input(e), connected, false, None) == (
            s,
            Seq::<CaptureAction>::empty(),
        ),
        s.captured(handle, CaptureEvent::Input(e), connected, false, Some(a)) == (
            s,
            seq![CaptureAction::Send(ProtoEvent::Enter(0), a)],
        ),
{
    assert(Seq::<CaptureAction>::empty().push(CaptureAction::Send(ProtoEvent::Enter(0), a)) =~= seq![
        CaptureAction::Send(ProtoEvent::Enter(0), a),
    ]);
}

/// While no session is going on, input that is still captured only gives the pointer back.
pub proof fn law_stray_input_gives_the_pointer_back(
    s: Session,
    handle: u64,
    e: InputEvent,
    connected: bool,
    release_bind: bool,
    addr: Option<PeerAddr>,
)
    requires
        s.state == State::Receiving,
    ensures
        s.captured(handle, CaptureEvent::Input(e), connected, release_bind, addr) == (
            s,
            seq![CaptureAction::Release],
        ),
{
    assert(Seq::<CaptureAction>::empty().push(CaptureAction::Release) =~= seq![
        CaptureAction::Release,
    ]);
}

/// The release keys ask for one thing in a session that is going on, and leave it as it is; only
/// once the pointer is back does it end, and remembers whom it was with.
pub proof fn law_session_ends_after_the_release(
    s: Session,
    handle: u64,
    e: InputEvent,
    connected: bool,
    addr: Option<PeerAddr>,
)
    requires
        s.state != State::Receiving,
    ensures
        s.captured(handle, CaptureEvent::Input(e), connected, true, addr) == (
            s,
            seq![CaptureAction::EndSession],
        ),
        s.ended().state == State::Receiving,
        s.ended().active == s.active,
{
    assert(Seq::<CaptureAction>::empty().push(CaptureAction::EndSession) =~= seq![
        CaptureAction::EndSession,
    ]);
}

/// A cursor that reaches an edge with the release keys down begins a session that is to end at once.
pub proof fn law_begin_with_release_keys(s: Session, handle: u64, addr: Option<PeerAddr>)
    ensures
        ({
            let r = s.captured(handle, CaptureEvent::Begin, true, true, addr);
            &&& r.0.state == State::AwaitAck
            &&& r.0.active == Some(handle)
            &&& r.1 == seq![
                CaptureAction::RestartPing,
                CaptureAction::SpawnHook(handle),
                CaptureAction::EndSession,
            ]
        }),
{
    let r = s.captured(handle, CaptureEvent::Begin, true, true, addr);
    assert(r.1 =~= seq![
        CaptureAction::RestartPing,
        CaptureAction::SpawnHook(handle),
        CaptureAction::EndSession,
    ]);
}

} // verus!

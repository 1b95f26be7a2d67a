//! The decisions of the server.
use lan_mouse::position::Position;
use lan_mouse::proto::auth::encode_authenticated;
use lan_mouse::proto::event::{InputEvent, KeyboardEvent, ProtoEvent, ProtocolError};
use lan_mouse::server::address::{socket_addr, PeerAddr, PeerIp};
use lan_mouse::server::barriers::{ensure_barrier, BarrierAction, Barriers, CaptureRequest};
use lan_mouse::server::client::{Client, ClientTable};
use lan_mouse::server::keepalive;
use lan_mouse::server::misses::MissCounts;
use lan_mouse::server::network::{counter_seed, needs_rebind, send_event, ReplayWindows};
use lan_mouse::server::ping;
use lan_mouse::server::session::{
    after_send, CaptureAction, CaptureEvent, Session, State,
};

fn ip(last: u8) -> PeerIp {
    PeerIp { v6: false, bits: 0xc0a8_0100 + last as u128 }
}

fn addr(last: u8) -> PeerAddr {
    socket_addr(ip(last), 4242)
}

fn client(handle: u64, ips: &[u8]) -> Client {
    Client {
        handle,
        pos: Position::Left,
        port: 4242,
        cmd: None,
        ips: ips.iter().map(|b| ip(*b)).collect(),
        active: true,
        connected: false,
        alive: false,
        responded: false,
        has_pressed_keys: false,
        active_addr: None,
    }
}

#[test]
fn datagrams_are_accepted_once_per_source() {
    let mut w = ReplayWindows::new();
    let (buf, len) = encode_authenticated(&ProtoEvent::Ping, b"k", 7);
    let d = &buf[..len];
    assert_eq!(w.receive_event(d, addr(1), None), None);
    assert_eq!(w.receive_event(d, addr(1), Some(b"k")), Some(Ok(ProtoEvent::Ping)));
    assert_eq!(w.receive_event(d, addr(1), Some(b"k")), None);
    assert_eq!(w.receive_event(d, addr(2), Some(b"k")), Some(Ok(ProtoEvent::Ping)));
    assert_eq!(w.receive_event(d, addr(3), Some(b"other")), None);
    assert_eq!(w.receive_event(&d[..40], addr(3), Some(b"k")), None);
    assert_eq!(w.receive_event(d, addr(3), Some(b"k")), Some(Ok(ProtoEvent::Ping)));
}

#[test]
fn decoded_datagrams_are_sorted_out() {
    let mut w = ReplayWindows::new();
    assert_eq!(w.take_in(addr(1), Ok((5, ProtoEvent::Pong))), Some(Ok(ProtoEvent::Pong)));
    assert_eq!(w.take_in(addr(1), Ok((5, ProtoEvent::Pong))), None);
    assert_eq!(w.take_in(addr(1), Ok((6, ProtoEvent::Pong))), Some(Ok(ProtoEvent::Pong)));
    assert_eq!(w.take_in(addr(1), Err(ProtocolError::AuthenticationFailed)), None);
    assert_eq!(w.take_in(addr(1), Err(ProtocolError::BadLength(3))), None);
    assert_eq!(
        w.take_in(addr(1), Err(ProtocolError::InvalidEventId(77))),
        Some(Err(ProtocolError::InvalidEventId(77)))
    );
}

#[test]
fn a_stream_of_datagrams_is_delivered() {
    let mut w = ReplayWindows::new();
    let mut counter = counter_seed(Some(1_700_000_000_000_000));
    for serial in 0..200u32 {
        let (buf, len) = send_event(&ProtoEvent::Enter(serial), Some(b"k"), &mut counter).unwrap();
        assert_eq!(
            w.receive_event(&buf[..len], addr(1), Some(b"k")),
            Some(Ok(ProtoEvent::Enter(serial)))
        );
    }
    assert_eq!(counter, 1_700_000_000_000_200);
}

#[test]
fn nothing_is_sent_without_a_key() {
    let mut counter = u64::MAX;
    assert!(send_event(&ProtoEvent::Ping, None, &mut counter).is_none());
    assert_eq!(counter, u64::MAX);
    assert!(send_event(&ProtoEvent::Ping, Some(b"k"), &mut counter).is_some());
    assert_eq!(counter, 0);
    assert_eq!(counter_seed(None), 0);
    assert_eq!(counter_seed(Some((1u128 << 64) + 9)), 9);
    assert!(needs_rebind(1, 2) && !needs_rebind(2, 2));
}

#[test]
fn pings_go_to_clients_with_pressed_keys_while_receiving() {
    let mut a = client(1, &[1, 2]);
    a.has_pressed_keys = true;
    let mut b = client(2, &[3]);
    b.has_pressed_keys = true;
    b.alive = true;
    b.active_addr = Some(addr(9));
    let c = client(3, &[4]);
    let mut table = ClientTable { clients: vec![a, b, c] };
    let round = ping::begin_round(&mut table, true, Some(3));
    assert_eq!(round.clients, vec![1, 2]);
    assert_eq!(round.addrs, vec![addr(1), addr(2), addr(9)]);
    assert!(table.clients.iter().all(|c| !c.alive));
    assert!(!ping::round_is_over(true, &round));
    let quiet = ping::begin_round(&mut ClientTable { clients: vec![client(3, &[4])] }, true, None);
    assert!(ping::round_is_over(true, &quiet));
    assert!(!ping::round_is_over(false, &quiet));
}

#[test]
fn keys_are_released_after_three_misses_in_a_row() {
    let mut a = client(1, &[1]);
    a.has_pressed_keys = true;
    let mut table = ClientTable { clients: vec![a] };
    let mut misses = MissCounts::new();
    let mut released = Vec::new();
    for answers in [false, false, true, false, false, false, false] {
        let round = ping::begin_round(&mut table, true, None);
        table.clients[0].alive = answers;
        let v = ping::end_round(&table, true, &round.clients, &mut misses);
        assert!(!v.release_pointer);
        released.push(v.release_keys.len());
    }
    assert_eq!(released, vec![0, 0, 0, 0, 0, 1, 0]);
}

#[test]
fn pointer_is_released_when_the_active_client_is_lost() {
    let mut table = ClientTable { clients: vec![client(5, &[1])] };
    let mut misses = MissCounts::new();
    for turn in 0..3 {
        let round = ping::begin_round(&mut table, false, Some(5));
        assert_eq!(round.clients, vec![5]);
        let v = ping::end_round(&table, false, &round.clients, &mut misses);
        assert!(v.release_keys.is_empty());
        assert_eq!(v.release_pointer, turn == 2);
    }
    let gone = ping::begin_round(&mut table, false, Some(77));
    assert!(gone.addrs.is_empty());
    for _ in 0..4 {
        assert!(!ping::end_round(&table, false, &gone.clients, &mut misses).release_pointer);
    }
    assert!(ping::begin_round(&mut table, false, None).clients.is_empty());
}

#[test]
fn keepalive_reports_changes_only() {
    let mut off = client(2, &[2]);
    off.active = false;
    let mut known = client(3, &[3, 4]);
    known.active_addr = Some(addr(30));
    let mut table = ClientTable { clients: vec![client(1, &[1]), off, known, client(4, &[5])] };
    let mut misses = MissCounts::new();
    let mut log = Vec::new();
    for answers in [true, true, false, false, false, false, true] {
        let round = keepalive::begin_round(&mut table, Some(4), &mut misses);
        assert_eq!(round.clients, vec![1, 3]);
        assert_eq!(round.addrs, vec![addr(1), addr(30)]);
        assert!(!table.clients[0].responded);
        table.clients[0].responded = answers;
        table.clients[2].responded = true;
        log.push(keepalive::end_round(&mut table, &round.clients, &mut misses));
    }
    assert_eq!(
        log,
        vec![vec![1, 3], vec![], vec![], vec![], vec![1], vec![], vec![1]]
    );
    assert!(table.clients[0].connected && table.clients[2].connected);
    assert!(!table.clients[1].connected && !table.clients[3].connected);
}

#[test]
fn keepalive_forgets_clients_that_it_does_not_manage() {
    let mut table = ClientTable { clients: vec![client(1, &[1])] };
    table.clients[0].connected = true;
    let mut misses = MissCounts::new();
    for _ in 0..2 {
        let round = keepalive::begin_round(&mut table, None, &mut misses);
        assert!(keepalive::end_round(&mut table, &round.clients, &mut misses).is_empty());
    }
    let skipped = keepalive::begin_round(&mut table, Some(1), &mut misses);
    assert!(skipped.clients.is_empty());
    for turn in 0..3 {
        let round = keepalive::begin_round(&mut table, None, &mut misses);
        let changed = keepalive::end_round(&mut table, &round.clients, &mut misses);
        assert_eq!(changed.len(), if turn == 2 { 1 } else { 0 });
    }
    let lost = keepalive::end_round(&mut table, &[99], &mut misses);
    assert!(lost.is_empty());
}

#[test]
fn connection_changes_are_news_once() {
    let mut table = ClientTable { clients: vec![client(1, &[]), client(2, &[])] };
    assert!(table.set_connected(2, true));
    assert!(!table.set_connected(2, true));
    assert!(table.set_connected(2, false));
    assert!(!table.set_connected(3, true));
    assert!(!table.clients[0].connected);
    table.clients[1].cmd = Some("notify-send hi".to_string());
    assert_eq!(table.hook_command(2), Some("notify-send hi".to_string()));
    assert_eq!(table.hook_command(1), None);
    assert_eq!(table.hook_command(9), None);
    assert_eq!(table.place(2), Some(1));
    assert_eq!(table.place(9), None);
}

#[test]
fn barriers_follow_the_clients() {
    let mut table = ClientTable { clients: vec![client(1, &[1]), client(2, &[2])] };
    table.clients[0].connected = true;
    let (mut barriers, list) = Barriers::start(&table.clients);
    assert_eq!(list, vec![(1, Position::Left)]);
    let mut misses = MissCounts::new();
    let mut log = Vec::new();
    for _ in 0..3 {
        let round = keepalive::begin_round(&mut table, None, &mut misses);
        table.clients[1].responded = true;
        for h in keepalive::end_round(&mut table, &round.clients, &mut misses) {
            let request = ensure_barrier(&table, h).unwrap();
            log.extend(barriers.handle(request));
        }
    }
    assert_eq!(
        log,
        vec![BarrierAction::Create(2, Position::Left), BarrierAction::Destroy(1)]
    );
    assert_eq!(ensure_barrier(&table, 9), None);
    table.clients[1].active = false;
    assert_eq!(ensure_barrier(&table, 2), Some(CaptureRequest::Destroy(2)));
}

fn key_input() -> InputEvent {
    InputEvent::Keyboard(KeyboardEvent::Key { time: 0, key: 30, state: 1 })
}

#[test]
fn session_announces_then_sends() {
    let mut s = Session { state: State::Receiving, active: None };
    let a = addr(1);
    assert_eq!(
        s.handle_capture_event(7, CaptureEvent::Begin, true, false, Some(a)),
        vec![
            CaptureAction::RestartPing,
            CaptureAction::SpawnHook(7),
            CaptureAction::Send(ProtoEvent::Enter(0), a),
        ]
    );
    assert_eq!(s, Session { state: State::AwaitAck, active: Some(7) });
    let e = CaptureEvent::Input(key_input());
    assert_eq!(
        s.handle_capture_event(7, e, true, false, Some(a)),
        vec![CaptureAction::Send(ProtoEvent::Enter(0), a)]
    );
    s.state = State::Sending;
    assert_eq!(
        s.handle_capture_event(7, e, true, false, Some(a)),
        vec![CaptureAction::Send(ProtoEvent::Input(key_input()), a)]
    );
    assert_eq!(s.handle_capture_event(7, e, true, false, None), vec![]);
    assert_eq!(
        s.handle_capture_event(7, e, true, true, Some(a)),
        vec![CaptureAction::EndSession]
    );
    assert_eq!(s, Session { state: State::Sending, active: Some(7) });
    let mut quiet = s;
    assert_eq!(quiet.end(None), None);
    assert_eq!(quiet, Session { state: State::Receiving, active: Some(7) });
    assert_eq!(s.end(Some(a)), Some(CaptureAction::Send(ProtoEvent::Leave(0), a)));
    assert_eq!(s, Session { state: State::Receiving, active: Some(7) });
    assert_eq!(
        s.handle_capture_event(7, e, true, false, Some(a)),
        vec![CaptureAction::Release]
    );
}

#[test]
fn session_refuses_clients_that_are_not_connected() {
    let start = Session { state: State::Sending, active: Some(3) };
    let mut s = start;
    assert_eq!(
        s.handle_capture_event(7, CaptureEvent::Begin, false, true, Some(addr(1))),
        vec![CaptureAction::Release]
    );
    assert_eq!(s, start);
    assert_eq!(after_send(true), (false, true));
    assert_eq!(after_send(false), (true, false));
}

#[test]
fn barriers_are_put_up_and_taken_down_once() {
    let mut up = client(1, &[]);
    up.connected = true;
    up.pos = Position::Top;
    let mut off = client(2, &[]);
    off.connected = true;
    off.active = false;
    let (mut b, list) = Barriers::start(&[up, off, client(3, &[])]);
    assert_eq!(list, vec![(1, Position::Top)]);
    assert_eq!(b.handle(CaptureRequest::Create(1, Position::Top)), None);
    assert_eq!(
        b.handle(CaptureRequest::Create(2, Position::Left)),
        Some(BarrierAction::Create(2, Position::Left))
    );
    assert_eq!(b.handle(CaptureRequest::Destroy(1)), Some(BarrierAction::Destroy(1)));
    assert_eq!(b.handle(CaptureRequest::Destroy(1)), None);
    assert_eq!(b.handle(CaptureRequest::Release), Some(BarrierAction::Release));
    let mut s = Session { state: State::Sending, active: Some(1) };
    s.released();
    assert_eq!(s, Session { state: State::Receiving, active: Some(1) });
}

#[test]
fn lost_client_ends_the_session() {
    let start = Session { state: State::Sending, active: Some(1) };
    let mut s = start;
    s.after_ping(&ping::PingVerdict { release_keys: vec![1], release_pointer: false });
    assert_eq!(s, start);
    s.after_ping(&ping::PingVerdict { release_keys: vec![], release_pointer: true });
    assert_eq!(s, Session { state: State::Receiving, active: Some(1) });
}

//! The event encoding, authenticated datagrams and the replay window.
use lan_mouse::proto::auth::{
    attach_code, decode_authenticated, encode_authenticated, open_datagram, write_payload,
    COUNTER_SIZE, HMAC_TAG_SIZE, MAX_AUTH_DATAGRAM, MIN_AUTH_DATAGRAM,
};
use lan_mouse::proto::event::{
    EventType, InputEvent, KeyboardEvent, PointerEvent, ProtoEvent, ProtocolError, MAX_EVENT_SIZE,
};
use lan_mouse::proto::replay::ReplayWindow;

fn all_events() -> Vec<ProtoEvent> {
    vec![
        ProtoEvent::Input(InputEvent::Pointer(PointerEvent::Motion {
            time: 0x01020304,
            dx: (-1.5f64).to_bits(),
            dy: 300.25f64.to_bits(),
        })),
        ProtoEvent::Input(InputEvent::Pointer(PointerEvent::Button {
            time: 7,
            button: 0x110,
            state: 1,
        })),
        ProtoEvent::Input(InputEvent::Pointer(PointerEvent::Axis {
            time: 9,
            axis: 1,
            value: 0.5f64.to_bits(),
        })),
        ProtoEvent::Input(InputEvent::Pointer(PointerEvent::AxisDiscrete120 {
            axis: 0,
            value: -120,
        })),
        ProtoEvent::Input(InputEvent::Keyboard(KeyboardEvent::Key {
            time: 1,
            key: 30,
            state: 1,
        })),
        ProtoEvent::Input(InputEvent::Keyboard(KeyboardEvent::Modifiers {
            depressed: 1,
            latched: 2,
            locked: 3,
            group: 4,
        })),
        ProtoEvent::Ping,
        ProtoEvent::Pong,
        ProtoEvent::Enter(0),
        ProtoEvent::Leave(u32::MAX),
        ProtoEvent::Ack(42),
    ]
}

#[test]
fn every_event_survives_the_wire() {
    for (i, e) in all_events().iter().enumerate() {
        let (buf, len) = e.encode();
        assert_eq!(buf[0] as usize, i);
        assert!(len >= 1 && len <= MAX_EVENT_SIZE);
        assert!(buf[len..].iter().all(|b| *b == 0));
        assert_eq!(ProtoEvent::try_from(buf), Ok(*e));
    }
}

#[test]
fn encodings_have_the_expected_bytes() {
    let motion = ProtoEvent::Input(InputEvent::Pointer(PointerEvent::Motion {
        time: 0x01020304,
        dx: 1.0f64.to_bits(),
        dy: (-2.0f64).to_bits(),
    }));
    assert_eq!(
        motion.to_bytes(),
        vec![
            0, 1, 2, 3, 4, 0x3f, 0xf0, 0, 0, 0, 0, 0, 0, 0xc0, 0, 0, 0, 0, 0, 0, 0
        ]
    );
    let wheel = ProtoEvent::Input(InputEvent::Pointer(PointerEvent::AxisDiscrete120 {
        axis: 1,
        value: -120,
    }));
    assert_eq!(wheel.to_bytes(), vec![3, 1, 0xff, 0xff, 0xff, 0x88]);
    assert_eq!(ProtoEvent::Enter(9).to_bytes(), vec![8, 0, 0, 0, 9]);
    assert_eq!(ProtoEvent::Ping.to_bytes(), vec![6]);
    assert_eq!(ProtoEvent::Ping.event_type(), EventType::Ping);
    assert_eq!(EventType::Ack.to_u8(), 10);
    assert_eq!(EventType::try_from_u8(11), None);
}

#[test]
fn unknown_event_id_is_an_error() {
    let mut buf = [0u8; MAX_EVENT_SIZE];
    buf[0] = 11;
    assert_eq!(
        ProtoEvent::try_from(buf),
        Err(ProtocolError::InvalidEventId(11))
    );
    buf[0] = 255;
    assert_eq!(
        ProtoEvent::try_from(buf),
        Err(ProtocolError::InvalidEventId(255))
    );
}

#[test]
fn events_describe_themselves() {
    assert_eq!(ProtoEvent::Enter(12).describe("x"), "Enter(12)");
    assert_eq!(ProtoEvent::Leave(0).describe("x"), "Leave(0)");
    assert_eq!(ProtoEvent::Ack(4294967295).describe("x"), "Ack(4294967295)");
    assert_eq!(ProtoEvent::Ping.describe("x"), "ping");
    assert_eq!(ProtoEvent::Pong.describe("x"), "pong");
    let key = ProtoEvent::Input(InputEvent::Keyboard(KeyboardEvent::Key {
        time: 0,
        key: 1,
        state: 0,
    }));
    assert_eq!(key.describe("key(1)"), "key(1)");
}

#[test]
fn authenticated_datagram_has_the_expected_bytes() {
    let (buf, len) = encode_authenticated(&ProtoEvent::Enter(9), b"key", 5);
    assert_eq!(len, COUNTER_SIZE + 5 + HMAC_TAG_SIZE);
    assert_eq!(
        buf[..13],
        [0, 0, 0, 0, 0, 0, 0, 5, 8, 0, 0, 0, 9]
    );
    assert_eq!(buf[13..17], [0xa6, 0xbb, 0x1d, 0xd1]);
    assert!(buf[len..].iter().all(|b| *b == 0));
}

#[test]
fn authenticated_roundtrip_and_rejections() {
    for (i, e) in all_events().iter().enumerate() {
        let counter = u64::MAX - i as u64;
        let (buf, len) = encode_authenticated(e, b"secret", counter);
        assert!(len >= MIN_AUTH_DATAGRAM && len <= MAX_AUTH_DATAGRAM);
        assert_eq!(
            decode_authenticated(&buf[..len], b"secret"),
            Ok((counter, *e))
        );
        assert_eq!(
            decode_authenticated(&buf[..len], b"other"),
            Err(ProtocolError::AuthenticationFailed)
        );
        for at in [0, 8, len - 1] {
            let mut forged = buf;
            forged[at] ^= 1;
            assert_eq!(
                decode_authenticated(&forged[..len], b"secret"),
                Err(ProtocolError::AuthenticationFailed)
            );
        }
    }
}

#[test]
fn datagram_length_is_checked_first() {
    assert_eq!(
        decode_authenticated(&[0u8; 40], b"k"),
        Err(ProtocolError::BadLength(40))
    );
    assert_eq!(
        decode_authenticated(&[0u8; 62], b"k"),
        Err(ProtocolError::BadLength(62))
    );
    assert_eq!(
        decode_authenticated(&[], b"k"),
        Err(ProtocolError::BadLength(0))
    );
    assert_eq!(
        decode_authenticated(&[0u8; 41], b"k"),
        Err(ProtocolError::AuthenticationFailed)
    );
}

#[test]
fn opening_without_a_key_goes_by_the_given_verdict() {
    let body = write_payload(&ProtoEvent::Pong, 258);
    assert_eq!(body, vec![0, 0, 0, 0, 0, 0, 1, 2, 7]);
    let (buf, len) = attach_code(&body, &[0xabu8; 32]);
    assert_eq!(len, 41);
    assert_eq!(open_datagram(&buf[..len], true), Ok((258, ProtoEvent::Pong)));
    assert_eq!(
        open_datagram(&buf[..len], false),
        Err(ProtocolError::AuthenticationFailed)
    );
    let (bad, bad_len) = attach_code(&[0, 0, 0, 0, 0, 0, 0, 0, 99], &[0u8; 32]);
    assert_eq!(
        open_datagram(&bad[..bad_len], true),
        Err(ProtocolError::InvalidEventId(99))
    );
}

#[test]
fn replay_window_accepts_each_counter_once() {
    let mut w = ReplayWindow::new();
    assert!(w.check_and_record(100));
    assert!(!w.check_and_record(100));
    assert!(w.check_and_record(101));
    assert!(w.check_and_record(99));
    assert!(!w.check_and_record(99));
    assert!(!w.check_and_record(100));
    assert!(w.check_and_record(37));
    assert!(!w.check_and_record(36));
    assert!(!w.check_and_record(37));
}

#[test]
fn replay_window_remembers_the_old_mark_at_the_edge() {
    let mut w = ReplayWindow::new();
    assert!(w.check_and_record(1000));
    assert!(w.check_and_record(1064));
    assert!(!w.check_and_record(1000));
    assert!(w.check_and_record(1001));
    let mut v = ReplayWindow::new();
    assert!(v.check_and_record(1000));
    assert!(v.check_and_record(1065));
    assert!(!v.check_and_record(1000));
    assert!(v.check_and_record(1001));
    let mut u = ReplayWindow::new();
    assert!(u.check_and_record(0));
    assert!(u.check_and_record(63));
    assert!(!u.check_and_record(0));
    assert!(u.check_and_record(u64::MAX));
    assert!(!u.check_and_record(63));
    assert!(u.check_and_record(u64::MAX - 64));
    assert!(!u.check_and_record(u64::MAX - 65));
}

#[test]
fn replay_window_takes_late_first_arrivals() {
    let mut w = ReplayWindow::new();
    let order = [10u64, 12, 11, 15, 13, 14, 9];
    for c in order {
        assert!(w.check_and_record(c));
    }
    for c in order {
        assert!(!w.check_and_record(c));
    }
}

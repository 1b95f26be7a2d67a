//! Emulated input as device writes.
use lan_mouse::emulation::{
    button, consume, discrete_ticks, key, motion, scroll, DeviceWrite, EmulatedEvent, EV_KEY,
    EV_REL, REL_HWHEEL, REL_WHEEL, REL_X, REL_Y,
};

fn event(kind: i32, code: i32, value: i32) -> DeviceWrite {
    DeviceWrite::Event { kind, code, value }
}

#[test]
fn motion_writes_changed_axes() {
    assert_eq!(
        motion(3, -4),
        vec![event(EV_REL, REL_X, 3), event(EV_REL, REL_Y, -4), DeviceWrite::Synchronize]
    );
    assert_eq!(motion(0, 5), vec![event(EV_REL, REL_Y, 5), DeviceWrite::Synchronize]);
    assert_eq!(motion(0, 0), vec![DeviceWrite::Synchronize]);
}

#[test]
fn buttons_have_their_codes() {
    let codes = [
        (0x110, 0x110),
        (0x111, 0x111),
        (0x112, 0x112),
        (0x113, 0x116),
        (0x114, 0x115),
        (0x999, 0x110),
    ];
    for (btn, code) in codes {
        assert_eq!(button(btn, 1), vec![event(EV_KEY, code, 1), DeviceWrite::Synchronize]);
    }
    assert_eq!(
        button(0x110, u32::MAX),
        vec![event(EV_KEY, 0x110, -1), DeviceWrite::Synchronize]
    );
}

#[test]
fn scrolling_rounds_to_ticks() {
    let ticks = [
        (0, 0),
        (1, 1),
        (59, 1),
        (60, 1),
        (179, 1),
        (180, 2),
        (-1, -1),
        (-60, -1),
        (-180, -2),
        (i32::MAX, 17895697),
        (i32::MIN, -17895697),
    ];
    for (value, expected) in ticks {
        assert_eq!(discrete_ticks(value), expected);
    }
    assert_eq!(
        scroll(0, 2),
        vec![event(EV_REL, REL_WHEEL, -2), DeviceWrite::Synchronize]
    );
    assert_eq!(
        scroll(1, -3),
        vec![event(EV_REL, REL_HWHEEL, 3), DeviceWrite::Synchronize]
    );
    assert!(scroll(0, 0).is_empty());
}

#[test]
fn events_are_consumed() {
    assert_eq!(consume(EmulatedEvent::Key { key: 30, state: 1 }), key(30, 1));
    assert_eq!(key(30, 1), vec![event(EV_KEY, 30, 1), DeviceWrite::Synchronize]);
    assert_eq!(
        consume(EmulatedEvent::ScrollDiscrete120 { axis: 0, value: -240 }),
        vec![event(EV_REL, REL_WHEEL, 2), DeviceWrite::Synchronize]
    );
    assert_eq!(consume(EmulatedEvent::Scroll { axis: 1, ticks: 1 }), scroll(1, 1));
    assert_eq!(consume(EmulatedEvent::Motion { dx: 1, dy: 1 }), motion(1, 1));
    assert_eq!(consume(EmulatedEvent::Button { button: 0x111, state: 0 }), button(0x111, 0));
    assert!(consume(EmulatedEvent::Modifiers).is_empty());
}

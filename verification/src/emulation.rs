//! Emulating input on a Linux machine: received events become writes to an evdev device.
use crate::bytes::{i32_from_pattern, i32_of_pattern};
use crate::capture::keys::{BTN_BACK, BTN_FORWARD, BTN_LEFT, BTN_MIDDLE, BTN_RIGHT};
use vstd::prelude::*;

verus! {

pub const EV_KEY: i32 = 0x01;

pub const EV_REL: i32 = 0x02;

pub const REL_X: i32 = 0x00;

pub const REL_Y: i32 = 0x01;

pub const REL_HWHEEL: i32 = 0x06;

pub const REL_WHEEL: i32 = 0x08;

pub const EVDEV_BTN_LEFT: i32 = 0x110;

pub const EVDEV_BTN_RIGHT: i32 = 0x111;

pub const EVDEV_BTN_MIDDLE: i32 = 0x112;

pub const EVDEV_BTN_FORWARD: i32 = 0x115;

pub const EVDEV_BTN_BACK: i32 = 0x116;

/// One write to the device.
#[derive(Clone, Copy, Debug, PartialEq, Eq, Structural)]
pub enum DeviceWrite {
    /// An event of a kind, with a code and a value.
    Event { kind: i32, code: i32, value: i32 },
    /// The end of a group of events that belong together.
    Synchronize,
}

/// An input event with its coordinates and scroll amounts as whole numbers.
#[allow(inconsistent_fields)]
#[derive(Clone, Copy, Debug, PartialEq, Eq, Structural)]
pub enum EmulatedEvent {
    Motion { dx: i32, dy: i32 },
    Button { button: u32, state: u32 },
    /// Wheel ticks of an axis.
    Scroll { axis: u8, ticks: i32 },
    /// A scroll amount of which one hundred and twenty make a wheel tick.
    ScrollDiscrete120 { axis: u8, value: i32 },
    Key { key: u32, state: u8 },
    Modifiers,
}

/// An event on its own.
pub open spec fn single(kind: i32, code: i32, value: i32) -> Seq<DeviceWrite> {
    seq![DeviceWrite::Event { kind: kind, code: code, value: value }, DeviceWrite::Synchronize]
}

/// A motion: one event for each axis that changes.
pub open spec fn motion_writes(dx: i32, dy: i32) -> Seq<DeviceWrite> {
    (if dx != 0 {
        seq![DeviceWrite::Event { kind: EV_REL, code: REL_X, value: dx }]
    } else {
        Seq::empty()
    }) + (if dy != 0 {
        seq![DeviceWrite::Event { kind: EV_REL, code: REL_Y, value: dy }]
    } else {
        Seq::empty()
    }) + seq![DeviceWrite::Synchronize]
}

/// The device's code of a button. A button that is not known counts as the left one.
pub open spec fn button_code(button: u32) -> i32 {
    if button == BTN_RIGHT {
        EVDEV_BTN_RIGHT
    } else if button == BTN_MIDDLE {
        EVDEV_BTN_MIDDLE
    } else if button == BTN_BACK {
        EVDEV_BTN_BACK
    } else if button == BTN_FORWARD {
        EVDEV_BTN_FORWARD
    } else {
        EVDEV_BTN_LEFT
    }
}

/// Scrolling by wheel ticks; the device counts in the other direction. No ticks, no writes.
pub open spec fn scroll_writes(axis: u8, ticks: int) -> Seq<DeviceWrite> {
    if ticks == 0 {
        Seq::empty()
    } else {
        single(
            EV_REL,
            if axis == 1 {
                REL_HWHEEL
            } else {
                REL_WHEEL
            },
            (-ticks) as i32,
        )
    }
}

/// The wheel ticks in a scroll amount: rounded to the nearest, halves away from zero, but at least
/// one in its direction unless it is zero.
pub open spec fn ticks_of(value: int) -> int {
    if value >= 60 {
        (value + 60) / 120
    } else if value <= -60 {
        -((60 - value) / 120)
    } else if value > 0 {
        1
    } else if value < 0 {
        -1
    } else {
        0
    }
}

/// What an event writes.
pub open spec fn writes_of(event: EmulatedEvent) -> Seq<DeviceWrite> {
    match event {
        EmulatedEvent::Motion { dx, dy } => motion_writes(dx, dy),
        EmulatedEvent::Button { button, state } => single(
            EV_KEY,
            button_code(button),
            i32_of_pattern(state as nat),
        ),
        EmulatedEvent::Scroll { axis, ticks } => scroll_writes(axis, ticks as int),
        EmulatedEvent::ScrollDiscrete120 { axis, value } => scroll_writes(
            axis,
            ticks_of(value as int),
        ),
        EmulatedEvent::Key { key, state } => single(
            EV_KEY,
            i32_of_pattern(key as nat),
            state as i32,
        ),
        EmulatedEvent::Modifiers => Seq::empty(),
    }
}

fn write_one(kind: i32, code: i32, value: i32) -> (out: Vec<DeviceWrite>)
    ensures
        out@ == single(kind, code, value),
{
    let mut out: Vec<DeviceWrite> = Vec::new();
    out.push(DeviceWrite::Event { kind: kind, code: code, value: value });
    out.push(DeviceWrite::Synchronize);
    assert(out@ =~= single(kind, code, value));
    out
}

/// Moves the pointer.
pub fn motion(dx: i32, dy: i32) -> (out: Vec<DeviceWrite>)
    ensures
        out@ == motion_writes(dx, dy),
{
    let mut out: Vec<DeviceWrite> = Vec::new();
    if dx != 0 {
        out.push(DeviceWrite::Event { kind: EV_REL, code: REL_X, value: dx });
    }
    if dy != 0 {
        out.push(DeviceWrite::Event { kind: EV_REL, code: REL_Y, value: dy });
    }
    out.push(DeviceWrite::Synchronize);
    assert(out@ =~= motion_writes(dx, dy));
    out
}

/// Presses or releases a button.
pub fn button(btn: u32, state: u32) -> (out: Vec<DeviceWrite>)
    ensures
        out@ == single(EV_KEY, button_code(btn), i32_of_pattern(state as nat)),
{
    let code: i32 = if btn == BTN_LEFT {
        EVDEV_BTN_LEFT
    } else if btn == BTN_RIGHT {
        EVDEV_BTN_RIGHT
    } else if btn == BTN_MIDDLE {
        EVDEV_BTN_MIDDLE
    } else if btn == BTN_BACK {
        EVDEV_BTN_BACK
    } else if btn == BTN_FORWARD {
        EVDEV_BTN_FORWARD
    } else {
        EVDEV_BTN_LEFT
    };
    write_one(EV_KEY, code, i32_from_pattern(state))
}

/// Scrolls by wheel ticks.
pub fn scroll(axis: u8, ticks: i32) -> (out: Vec<DeviceWrite>)
    requires
        ticks != i32::MIN,
    ensures
        out@ == scroll_writes(axis, ticks as int),
{
    if ticks == 0 {
        return Vec::new();
    }
    let code: i32 = if axis == 1 {
        REL_HWHEEL
    } else {
        REL_WHEEL
    };
    write_one(EV_REL, code, 0 - ticks)
}

/// The wheel ticks in a scroll amount of which one hundred and twenty make a tick.
pub fn discrete_ticks(value: i32) -> (ticks: i32)
    ensures
        ticks == ticks_of(value as int),
        ticks != i32::MIN,
{
    let v: i64 = value as i64;
    if v >= 60 {
        ((v + 60) as u64 / 120) as i32
    } else if v <= -60 {
        (0 - ((60 - v) as u64 / 120) as i64) as i32
    } else if v > 0 {
        1
    } else if v < 0 {
        -1
    } else {
        0
    }
}

/// Presses or releases a key, given by its evdev code.
pub fn key(code: u32, state: u8) -> (out: Vec<DeviceWrite>)
    ensures
        out@ == single(EV_KEY, i32_of_pattern(code as nat), state as i32),
{
    write_one(EV_KEY, i32_from_pattern(code), state as i32)
}

/// The writes that emulate an event. Modifier states are left to the keys themselves.
pub fn consume(event: EmulatedEvent) -> (out: Vec<DeviceWrite>)
    requires
        event matches EmulatedEvent::Scroll { axis, ticks } ==> ticks != i32::MIN,
    ensures
        out@ == writes_of(event),
{
    match event {
        EmulatedEvent::Motion { dx, dy } => motion(dx, dy),
        EmulatedEvent::Button { button: b, state } => button(b, state),
        EmulatedEvent::Scroll { axis, ticks } => scroll(axis, ticks),
        EmulatedEvent::ScrollDiscrete120 { axis, value } => scroll(axis, discrete_ticks(value)),
        EmulatedEvent::Key { key: k, state } => key(k, state),
        EmulatedEvent::Modifiers => Vec::new(),
    }
}

/// Whatever is written ends with a synchronization, so that no event is left waiting.
pub proof fn law_writes_are_synchronized(event: EmulatedEvent)
    ensures
        writes_of(event).len() > 0 ==> writes_of(event).last() is Synchronize,
        forall|i: int|
            0 <= i < writes_of(event).len() - 1 ==> (#[trigger] writes_of(event)[i]) is Event,
{
}

/// The ticks of a scroll amount are within half a tick of it, or one in its direction where it is
/// smaller than half a tick.
pub proof fn law_ticks_are_nearest(value: int)
    ensures
        value == 0 <==> ticks_of(value) == 0,
        value > 0 ==> ticks_of(value) > 0,
        ticks_of(-value) == -ticks_of(value),
        value >= 60 ==> -60 <= 120 * ticks_of(value) - value <= 60,
{
}

/// Every key is written as it is, a press as much as a release: one key event with its code and its
/// state, then a synchronization.
pub proof fn law_keys_are_written(key: u32, state: u8)
    ensures
        ({
            let w = writes_of(EmulatedEvent::Key { key: key, state: state });
            &&& w.len() == 2
            &&& w[0] matches DeviceWrite::Event { kind, code, value } && kind == 0x01 && value
                == state && (code - key) % 0x1_0000_0000 == 0
            &&& w[1] == DeviceWrite::Synchronize
        }),
{
}

/// Every button is written with its state: the first three under their own codes, the two at the
/// side under the codes of going back and forward, and an unknown one as the left button.
pub proof fn law_buttons_are_written(button: u32, state: u32)
    ensures
        ({
            let w = writes_of(EmulatedEvent::Button { button: button, state: state });
            &&& w.len() == 2
            &&& w[0] matches DeviceWrite::Event { kind, code, value } && kind == 0x01 && (value
                - state) % 0x1_0000_0000 == 0 && {
                &&& 0x110 <= button <= 0x112 ==> code == button
                &&& button == 0x113 ==> code == 0x116
                &&& button == 0x114 ==> code == 0x115
                &&& !(0x110 <= button <= 0x114) ==> code == 0x110
            }
            &&& w[1] == DeviceWrite::Synchronize
        }),
{
}

/// A motion is written in full: each axis that changes is written once with its own distance, the
/// horizontal one first, and one that does not change is left out.
pub proof fn law_motion_is_written(dx: i32, dy: i32)
    ensures
        ({
            let w = writes_of(EmulatedEvent::Motion { dx: dx, dy: dy });
            let x = DeviceWrite::Event { kind: 0x02, code: 0x00, value: dx };
            let y = DeviceWrite::Event { kind: 0x02, code: 0x01, value: dy };
            &&& dx != 0 && dy != 0 ==> w == seq![x, y, DeviceWrite::Synchronize]
            &&& dx != 0 && dy == 0 ==> w == seq![x, DeviceWrite::Synchronize]
            &&& dx == 0 && dy != 0 ==> w == seq![y, DeviceWrite::Synchronize]
            &&& dx == 0 && dy == 0 ==> w == seq![DeviceWrite::Synchronize]
        }),
{
    let w = writes_of(EmulatedEvent::Motion { dx: dx, dy: dy });
    let x = DeviceWrite::Event { kind: 0x02, code: 0x00, value: dx };
    let y = DeviceWrite::Event { kind: 0x02, code: 0x01, value: dy };
    if dx != 0 && dy != 0 {
        assert(w =~= seq![x, y, DeviceWrite::Synchronize]);
    } else if dx != 0 {
        assert(w =~= seq![x, DeviceWrite::Synchronize]);
    } else if dy != 0 {
        assert(w =~= seq![y, DeviceWrite::Synchronize]);
    } else {
        assert(w =~= seq![DeviceWrite::Synchronize]);
    }
}

/// Scrolling turns the wheel of its axis by as many ticks the other way, and not at all for none.
pub proof fn law_scrolling_is_written(axis: u8, ticks: i32)
    requires
        ticks != i32::MIN,
    ensures
        ({
            let w = writes_of(EmulatedEvent::Scroll { axis: axis, ticks: ticks });
            &&& ticks == 0 <==> w.len() == 0
            &&& ticks != 0 ==> w.len() == 2 && (w[0] matches DeviceWrite::Event {
                kind,
                code,
                value,
            } && kind == 0x02 && value + ticks == 0 && (axis == 1 ==> code == 0x06) && (axis != 1
                ==> code == 0x08)) && w[1] == DeviceWrite::Synchronize
        }),
{
}

/// A scroll amount turns the wheel by its ticks: rounded to the nearest, halves away from zero, at
/// least one in its direction, and none only where it is zero.
pub proof fn law_scroll_amounts_are_written(axis: u8, value: i32)
    ensures
        ({
            let w = writes_of(EmulatedEvent::ScrollDiscrete120 { axis: axis, value: value });
            &&& value == 0 <==> w.len() == 0
            &&& value != 0 ==> w.len() == 2 && w[1] == DeviceWrite::Synchronize && (
            w[0] matches DeviceWrite::Event { kind, code, value: turn } && kind == 0x02 && (axis
                == 1 ==> code == 0x06) && (axis != 1 ==> code == 0x08) && {
                &&& 0 < value < 60 ==> turn == -1
                &&& -60 < value < 0 ==> turn == 1
                &&& value >= 60 ==> -60 < -120 * turn - value <= 60
                &&& value <= -60 ==> -60 <= -120 * turn - value < 60
            })
        }),
{
}

/// Modifier states write nothing.
pub proof fn law_modifiers_write_nothing()
    ensures
        writes_of(EmulatedEvent::Modifiers).len() == 0,
{
}

} // verus!

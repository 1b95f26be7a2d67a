//! What the messages of the low-level hooks mean.
use crate::capture::edge::MouseInput;
use crate::capture::geometry::Point;
use vstd::prelude::*;

verus! {

pub const WM_KEYDOWN: usize = 0x100;

pub const WM_KEYUP: usize = 0x101;

pub const WM_SYSKEYDOWN: usize = 0x104;

pub const WM_SYSKEYUP: usize = 0x105;

pub const WM_MOUSEMOVE: usize = 0x200;

pub const WM_LBUTTONDOWN: usize = 0x201;

pub const WM_LBUTTONUP: usize = 0x202;

pub const WM_RBUTTONDOWN: usize = 0x204;

pub const WM_RBUTTONUP: usize = 0x205;

pub const WM_MBUTTONDOWN: usize = 0x207;

pub const WM_MBUTTONUP: usize = 0x208;

pub const WM_MOUSEWHEEL: usize = 0x20a;

pub const WM_XBUTTONDOWN: usize = 0x20b;

pub const WM_XBUTTONUP: usize = 0x20c;

pub const BTN_LEFT: u32 = 0x110;

pub const BTN_RIGHT: u32 = 0x111;

pub const BTN_MIDDLE: u32 = 0x112;

pub const BTN_BACK: u32 = 0x113;

pub const BTN_FORWARD: u32 = 0x114;

pub const VK_CAPITAL: u16 = 0x14;

pub const VK_ESCAPE: u16 = 0x1b;

pub const VK_LWIN: u16 = 0x5b;

pub const VK_RWIN: u16 = 0x5c;

pub const VK_LSHIFT: u16 = 0xa0;

pub const VK_RSHIFT: u16 = 0xa1;

pub const VK_LCONTROL: u16 = 0xa2;

pub const VK_RCONTROL: u16 = 0xa3;

pub const VK_LMENU: u16 = 0xa4;

pub const VK_RMENU: u16 = 0xa5;

pub const KEY_ESC: u32 = 1;

pub const KEY_LEFT_CTRL: u32 = 29;

pub const KEY_LEFT_SHIFT: u32 = 42;

pub const KEY_RIGHT_SHIFT: u32 = 54;

pub const KEY_LEFT_ALT: u32 = 56;

pub const KEY_CAPS_LOCK: u32 = 58;

pub const KEY_RIGHT_CTRL: u32 = 97;

pub const KEY_RIGHT_ALT: u32 = 100;

pub const KEY_LEFT_META: u32 = 125;

pub const KEY_RIGHT_META: u32 = 126;

/// What a key does, and which key it is.
#[derive(Clone, Copy, Debug, PartialEq, Eq, Structural)]
pub struct KeyInput {
    pub key: u32,
    pub state: u8,
}

/// The upper half of a mouse message's data, read as a signed number: the turn of the wheel.
pub open spec fn wheel_turn(mouse_data: u32) -> int {
    let high = mouse_data as int / 0x1_0000;
    if high >= 0x8000 {
        high - 0x1_0000
    } else {
        high
    }
}

/// A mouse button going down or up.
pub open spec fn button(code: u32, down: bool) -> Option<MouseInput> {
    Some(
        MouseInput::Button {
            button: code,
            state: if down {
                1
            } else {
                0
            },
        },
    )
}

/// The input that a mouse message stands for, seen from the anchor of the cursor.
pub open spec fn mouse_input(msg: usize, pt: Point, mouse_data: u32, anchor: Point) -> Option<
    MouseInput,
> {
    if msg == WM_LBUTTONDOWN || msg == WM_LBUTTONUP {
        button(BTN_LEFT, msg == WM_LBUTTONDOWN)
    } else if msg == WM_MBUTTONDOWN || msg == WM_MBUTTONUP {
        button(BTN_MIDDLE, msg == WM_MBUTTONDOWN)
    } else if msg == WM_RBUTTONDOWN || msg == WM_RBUTTONUP {
        button(BTN_RIGHT, msg == WM_RBUTTONDOWN)
    } else if msg == WM_MOUSEMOVE {
        Some(MouseInput::Motion { dx: (pt.x - anchor.x) as i64, dy: (pt.y - anchor.y) as i64 })
    } else if msg == WM_MOUSEWHEEL {
        Some(MouseInput::AxisDiscrete120 { axis: 0, value: (-wheel_turn(mouse_data)) as i32 })
    } else if msg == WM_XBUTTONDOWN || msg == WM_XBUTTONUP {
        let high = mouse_data as int / 0x1_0000;
        if high == 1 {
            button(BTN_BACK, msg == WM_XBUTTONDOWN)
        } else if high == 2 {
            button(BTN_FORWARD, msg == WM_XBUTTONDOWN)
        } else {
            None
        }
    } else {
        None
    }
}

/// Translates a mouse message. Motion is the distance from the anchor, to which the cursor is put
/// back after every motion.
pub fn to_mouse_event(msg: usize, pt: Point, mouse_data: u32, anchor: Point) -> (r: Option<
    MouseInput,
>)
    ensures
        r == mouse_input(msg, pt, mouse_data, anchor),
{
    if msg == WM_LBUTTONDOWN {
        Some(MouseInput::Button { button: BTN_LEFT, state: 1 })
    } else if msg == WM_MBUTTONDOWN {
        Some(MouseInput::Button { button: BTN_MIDDLE, state: 1 })
    } else if msg == WM_RBUTTONDOWN {
        Some(MouseInput::Button { button: BTN_RIGHT, state: 1 })
    } else if msg == WM_LBUTTONUP {
        Some(MouseInput::Button { button: BTN_LEFT, state: 0 })
    } else if msg == WM_MBUTTONUP {
        Some(MouseInput::Button { button: BTN_MIDDLE, state: 0 })
    } else if msg == WM_RBUTTONUP {
        Some(MouseInput::Button { button: BTN_RIGHT, state: 0 })
    } else if msg == WM_MOUSEMOVE {
        Some(
            MouseInput::Motion {
                dx: pt.x as i64 - anchor.x as i64,
                dy: pt.y as i64 - anchor.y as i64,
            },
        )
    } else if msg == WM_MOUSEWHEEL {
        let high: i32 = (mouse_data / 0x1_0000) as i32;
        let turn: i32 = if high >= 0x8000 {
            high - 0x1_0000
        } else {
            high
        };
        Some(MouseInput::AxisDiscrete120 { axis: 0, value: 0 - turn })
    } else if msg == WM_XBUTTONDOWN || msg == WM_XBUTTONUP {
        let high: u32 = mouse_data / 0x1_0000;
        let code: u32 = if high == 1 {
            BTN_BACK
        } else if high == 2 {
            BTN_FORWARD
        } else {
            return None;
        };
        Some(
            MouseInput::Button {
                button: code,
                state: if msg == WM_XBUTTONDOWN {
                    1
                } else {
                    0
                },
            },
        )
    } else {
        None
    }
}

/// The evdev key of a modifier, by its virtual key code.
pub open spec fn modifier_key(vk: u16) -> Option<u32> {
    if vk == VK_LMENU {
        Some(KEY_LEFT_ALT)
    } else if vk == VK_RMENU {
        Some(KEY_RIGHT_ALT)
    } else if vk == VK_LCONTROL {
        Some(KEY_LEFT_CTRL)
    } else if vk == VK_RCONTROL {
        Some(KEY_RIGHT_CTRL)
    } else if vk == VK_LSHIFT {
        Some(KEY_LEFT_SHIFT)
    } else if vk == VK_RSHIFT {
        Some(KEY_RIGHT_SHIFT)
    } else if vk == VK_LWIN {
        Some(KEY_LEFT_META)
    } else if vk == VK_RWIN {
        Some(KEY_RIGHT_META)
    } else if vk == VK_CAPITAL {
        Some(KEY_CAPS_LOCK)
    } else if vk == VK_ESCAPE {
        Some(KEY_ESC)
    } else {
        None
    }
}

/// The evdev key of a modifier. Some keyboards report a scan code of zero for modifiers, while
/// their virtual key codes can be relied on.
pub fn vk_to_linux(vk: u16) -> (r: Option<u32>)
    ensures
        r == modifier_key(vk),
{
    if vk == VK_LMENU {
        Some(KEY_LEFT_ALT)
    } else if vk == VK_RMENU {
        Some(KEY_RIGHT_ALT)
    } else if vk == VK_LCONTROL {
        Some(KEY_LEFT_CTRL)
    } else if vk == VK_RCONTROL {
        Some(KEY_RIGHT_CTRL)
    } else if vk == VK_LSHIFT {
        Some(KEY_LEFT_SHIFT)
    } else if vk == VK_RSHIFT {
        Some(KEY_RIGHT_SHIFT)
    } else if vk == VK_LWIN {
        Some(KEY_LEFT_META)
    } else if vk == VK_RWIN {
        Some(KEY_RIGHT_META)
    } else if vk == VK_CAPITAL {
        Some(KEY_CAPS_LOCK)
    } else if vk == VK_ESCAPE {
        Some(KEY_ESC)
    } else {
        None
    }
}

/// Marks the scan code of an extended key.
pub fn full_scan_code(scan_code: u32, extended: bool) -> (code: u32)
    ensures
        code == if extended {
            scan_code | 0xe000
        } else {
            scan_code
        },
{
    if extended {
        scan_code | 0xe000
    } else {
        scan_code
    }
}

/// The input that a keyboard message stands for. `mapped` is the evdev key of the scan code, where
/// it has one; a modifier is found by its virtual key code otherwise.
pub open spec fn key_input(msg: usize, vk: u32, mapped: Option<u32>) -> Option<KeyInput> {
    let down = msg == WM_KEYDOWN || msg == WM_SYSKEYDOWN;
    let up = msg == WM_KEYUP || msg == WM_SYSKEYUP;
    let key = match mapped {
        Some(k) => Some(k),
        None => modifier_key((vk % 0x1_0000) as u16),
    };
    match key {
        Some(k) if down => Some(KeyInput { key: k, state: 1 }),
        Some(k) if up => Some(KeyInput { key: k, state: 0 }),
        _ => None,
    }
}

/// Translates a keyboard message.
pub fn to_key_event(msg: usize, vk: u32, mapped: Option<u32>) -> (r: Option<KeyInput>)
    ensures
        r == key_input(msg, vk, mapped),
{
    let state: u8 = if msg == WM_KEYDOWN || msg == WM_SYSKEYDOWN {
        1
    } else if msg == WM_KEYUP || msg == WM_SYSKEYUP {
        0
    } else {
        return None;
    };
    let key: Option<u32> = match mapped {
        Some(k) => Some(k),
        None => vk_to_linux((vk % 0x1_0000) as u16),
    };
    match key {
        Some(k) => Some(KeyInput { key: k, state: state }),
        None => None,
    }
}

/// Motion is the distance from the anchor: two points that lie apart by some pixels give motions that
/// differ by as many, and the anchor itself gives none.
pub proof fn law_motion_is_the_distance_from_the_anchor(pt: Point, mouse_data: u32, anchor: Point)
    ensures
        mouse_input(0x200, pt, mouse_data, anchor) matches Some(m) && (
        m matches MouseInput::Motion { dx, dy } && anchor.x + dx == pt.x && anchor.y + dy == pt.y),
{
}

/// Every button message is told apart from the others by its button or by its state, and a press
/// differs from the release of the same button only in the state.
pub proof fn law_press_and_release_are_paired(pt: Point, mouse_data: u32, anchor: Point)
    ensures
        forall|down: usize, up: usize|
            #![trigger mouse_input(down, pt, mouse_data, anchor), mouse_input(up, pt, mouse_data, anchor)]
            (down == 0x201 || down == 0x204 || down == 0x207 || down == 0x20b) && up == down + 1
                ==> {
                let d = mouse_input(down, pt, mouse_data, anchor);
                let u = mouse_input(up, pt, mouse_data, anchor);
                &&& d is None <==> u is None
                &&& d is None ==> down == 0x20b && !(0x1_0000 <= mouse_data < 0x3_0000)
                &&& d matches Some(x) ==> (x matches MouseInput::Button { button: b, state: 1 }
                    && u == Some(MouseInput::Button { button: b, state: 0 }))
                &&& d matches Some(MouseInput::Button { button, .. }) ==> {
                    &&& down == 0x201 ==> button == 0x110
                    &&& down == 0x204 ==> button == 0x111
                    &&& down == 0x207 ==> button == 0x112
                    &&& down == 0x20b ==> button == 0x112 + mouse_data as int / 0x1_0000
                }
            },
{
}

/// The wheel turns the other way by as much as its message says, whose upper half is a signed number.
pub proof fn law_wheel_turns_the_other_way(pt: Point, mouse_data: u32, anchor: Point)
    ensures
        mouse_input(0x20a, pt, mouse_data, anchor) matches Some(m) && (
        m matches MouseInput::AxisDiscrete120 { axis, value } && axis == 0 && -0x8000 < value
            <= 0x8000 && (value * 0x1_0000 + mouse_data as int - mouse_data as int % 0x1_0000)
            % 0x1_0000_0000 == 0),
{
}

/// A key keeps its code between going down and up, whether it is a system key or not, and the code
/// of its scan code goes before that of its virtual key.
pub proof fn law_keys_keep_their_code(vk: u32, mapped: Option<u32>)
    ensures
        key_input(0x100, vk, mapped) == key_input(0x104, vk, mapped),
        key_input(0x101, vk, mapped) == key_input(0x105, vk, mapped),
        mapped matches Some(k) ==> key_input(0x100, vk, mapped) == Some(
            KeyInput { key: k, state: 1 },
        ) && key_input(0x101, vk, mapped) == Some(KeyInput { key: k, state: 0 }),
        mapped is None && vk < 0x1_0000 ==> {
            let down = key_input(0x100, vk, mapped);
            let up = key_input(0x101, vk, mapped);
            match modifier_key(vk as u16) {
                Some(k) => down == Some(KeyInput { key: k, state: 1 }) && up == Some(
                    KeyInput { key: k, state: 0 },
                ),
                None => down is None && up is None,
            }
        },
        forall|msg: usize|
            msg != 0x100 && msg != 0x101 && msg != 0x104 && msg != 0x105 ==> (#[trigger] key_input(
                msg,
                vk,
                mapped,
            )) is None,
{
}

/// Only modifiers, caps lock and escape are known by their virtual key, each by another code, and
/// the left ones differ from the right ones.
pub proof fn law_modifiers_have_their_own_codes(vk: u16)
    ensures
        modifier_key(0xa0) == Some(42u32),
        modifier_key(0xa1) == Some(54u32),
        modifier_key(0xa2) == Some(29u32),
        modifier_key(0xa3) == Some(97u32),
        modifier_key(0xa4) == Some(56u32),
        modifier_key(0xa5) == Some(100u32),
        modifier_key(0x5b) == Some(125u32),
        modifier_key(0x5c) == Some(126u32),
        modifier_key(0x14) == Some(58u32),
        modifier_key(0x1b) == Some(1u32),
        !(0xa0 <= vk <= 0xa5) && vk != 0x5b && vk != 0x5c && vk != 0x14 && vk != 0x1b
            ==> modifier_key(vk) is None,
{
}

} // verus!

//! The arrow that is drawn at an edge while the cursor rests there.
use crate::capture::geometry::{half, halved, Point, Rect};
use crate::capture::hooks::WM_TIMER;
use crate::position::Position;
use vstd::prelude::*;

verus! {

/// The distance of the arrow from the border of its window.
pub const INSET: i32 = 4;

/// The timer by which the indicator is redrawn, and its period in milliseconds.
pub const INDICATOR_TIMER_ID: usize = 0xd06e;

pub const INDICATOR_REFRESH_MS: u32 = 16;

/// The corners of an arrow that points to `pos` in a window of `w` by `h` pixels: one end, the
/// tip, the other end.
pub open spec fn arrow(pos: Position, w: int, h: int) -> (Point, Point, Point) {
    let near_x = INSET;
    let near_y = INSET;
    let far_x = (w - INSET) as i32;
    let far_y = (h - INSET) as i32;
    let mid_x = half(w) as i32;
    let mid_y = half(h) as i32;
    match pos {
        Position::Left => (
            Point { x: far_x, y: near_y },
            Point { x: near_x, y: mid_y },
            Point { x: far_x, y: far_y },
        ),
        Position::Right => (
            Point { x: near_x, y: near_y },
            Point { x: far_x, y: mid_y },
            Point { x: near_x, y: far_y },
        ),
        Position::Top => (
            Point { x: near_x, y: far_y },
            Point { x: mid_x, y: near_y },
            Point { x: far_x, y: far_y },
        ),
        Position::Bottom => (
            Point { x: near_x, y: near_y },
            Point { x: mid_x, y: far_y },
            Point { x: far_x, y: near_y },
        ),
    }
}

/// The corners of the arrow, in the order in which its outline is drawn.
pub fn arrow_points(pos: Position, w: i32, h: i32) -> (pts: (Point, Point, Point))
    requires
        i32::MIN + INSET <= w,
        i32::MIN + INSET <= h,
    ensures
        pts == arrow(pos, w as int, h as int),
{
    let far_x: i32 = w - INSET;
    let far_y: i32 = h - INSET;
    let mid_x: i32 = halved(w as i64) as i32;
    let mid_y: i32 = halved(h as i64) as i32;
    match pos {
        Position::Left => (
            Point { x: far_x, y: INSET },
            Point { x: INSET, y: mid_y },
            Point { x: far_x, y: far_y },
        ),
        Position::Right => (
            Point { x: INSET, y: INSET },
            Point { x: far_x, y: mid_y },
            Point { x: INSET, y: far_y },
        ),
        Position::Top => (
            Point { x: INSET, y: far_y },
            Point { x: mid_x, y: INSET },
            Point { x: far_x, y: far_y },
        ),
        Position::Bottom => (
            Point { x: INSET, y: INSET },
            Point { x: mid_x, y: far_y },
            Point { x: far_x, y: INSET },
        ),
    }
}

/// The part of a window of `w` by `h` pixels that is filled from the edge at `pos`, `filled`
/// pixels deep.
pub open spec fn filled_part(pos: Position, w: int, h: int, filled: int) -> Rect {
    match pos {
        Position::Left => Rect { left: 0, top: 0, right: filled as i32, bottom: h as i32 },
        Position::Right => Rect {
            left: (w - filled) as i32,
            top: 0,
            right: w as i32,
            bottom: h as i32,
        },
        Position::Top => Rect { left: 0, top: 0, right: w as i32, bottom: filled as i32 },
        Position::Bottom => Rect {
            left: 0,
            top: (h - filled) as i32,
            right: w as i32,
            bottom: h as i32,
        },
    }
}

/// The part of the indicator window that shows how much of the dwell time has passed.
pub fn progress_rect(pos: Position, w: i32, h: i32, filled: i32) -> (r: Rect)
    requires
        pos == Position::Right ==> i32::MIN <= w - filled <= i32::MAX,
        pos == Position::Bottom ==> i32::MIN <= h - filled <= i32::MAX,
    ensures
        r == filled_part(pos, w as int, h as int, filled as int),
{
    match pos {
        Position::Left => Rect { left: 0, top: 0, right: filled, bottom: h },
        Position::Right => Rect { left: w - filled, top: 0, right: w, bottom: h },
        Position::Top => Rect { left: 0, top: 0, right: w, bottom: filled },
        Position::Bottom => Rect { left: 0, top: h - filled, right: w, bottom: h },
    }
}

/// A window has to be drawn.
pub const WM_PAINT: u32 = 0x0f;

/// What a message to the indicator window asks for.
#[derive(Clone, Copy, Debug, PartialEq, Eq, Structural)]
pub enum IndicatorAction {
    /// Draw the arrow.
    Paint,
    /// Have the window drawn anew.
    Refresh,
    /// Whatever the system does by default.
    Default,
}

/// Sorts out a message to the indicator window.
pub fn indicator_proc(msg: u32, wparam: usize) -> (a: IndicatorAction)
    ensures
        a == if msg == WM_PAINT {
            IndicatorAction::Paint
        } else if msg == WM_TIMER && wparam == INDICATOR_TIMER_ID {
            IndicatorAction::Refresh
        } else {
            IndicatorAction::Default
        },
{
    if msg == WM_PAINT {
        IndicatorAction::Paint
    } else if msg == WM_TIMER && wparam == INDICATOR_TIMER_ID {
        IndicatorAction::Refresh
    } else {
        IndicatorAction::Default
    }
}

/// The colour that is made transparent, and the background of a demonstration.
pub const COLOR_KEY: u32 = 0x00ff_00ff;

pub const DEMO_COLOR: u32 = 0x0000_00ff;

/// The arrow, and the part of it that shows how much time has passed.
pub const ARROW_COLOR: u32 = 0x00ff_aa78;

pub const PROGRESS_COLOR: u32 = 0x00ff_6e28;

/// How opaque the indicator is.
pub const INDICATOR_ALPHA: u8 = 200;

/// On top of all others, without focus, without a button in the task bar, and transparent to the
/// mouse: the extended styles of the indicator window.
pub const DEMO_STYLE: u32 = 0x0800_00a8;

/// The same, and layered, so that it can be seen through.
pub const LAYERED_STYLE: u32 = 0x0808_00a8;

/// How the indicator window is made.
#[derive(Clone, Copy, Debug, PartialEq, Eq, Structural)]
pub struct IndicatorWindow {
    pub ex_style: u32,
    pub background: u32,
    pub layered: bool,
}

/// How the indicator window is made: to be seen at any rate in a demonstration, and half
/// transparent otherwise.
pub fn indicator_window(demo: bool) -> (w: IndicatorWindow)
    ensures
        demo ==> w == (IndicatorWindow {
            ex_style: DEMO_STYLE,
            background: DEMO_COLOR,
            layered: false,
        }),
        !demo ==> w == (IndicatorWindow {
            ex_style: LAYERED_STYLE,
            background: COLOR_KEY,
            layered: true,
        }),
{
    if demo {
        IndicatorWindow { ex_style: DEMO_STYLE, background: DEMO_COLOR, layered: false }
    } else {
        IndicatorWindow { ex_style: LAYERED_STYLE, background: COLOR_KEY, layered: true }
    }
}

/// The arrow is inside its window, and its tip is on the side that it points to.
pub proof fn law_arrow_points_outwards(pos: Position, w: i32, h: i32)
    requires
        w >= 2 * INSET,
        h >= 2 * INSET,
    ensures
        ({
            let (a, tip, b) = arrow(pos, w as int, h as int);
            &&& 0 <= a.x <= w && 0 <= a.y <= h
            &&& 0 <= tip.x <= w && 0 <= tip.y <= h
            &&& 0 <= b.x <= w && 0 <= b.y <= h
            &&& match pos {
                Position::Left => tip.x <= a.x && tip.x <= b.x && tip.x == INSET,
                Position::Right => tip.x >= a.x && tip.x >= b.x && tip.x == w - INSET,
                Position::Top => tip.y <= a.y && tip.y <= b.y && tip.y == INSET,
                Position::Bottom => tip.y >= a.y && tip.y >= b.y && tip.y == h - INSET,
            }
        }),
{
}

/// The filled part starts at the edge that the arrow points to where it points left or up, and
/// ends there where it points right or down; it is as deep as asked for.
pub proof fn law_progress_grows_from_the_edge(pos: Position, w: i32, h: i32, filled: i32)
    requires
        0 <= filled,
        pos == Position::Left || pos == Position::Right ==> filled <= w,
        pos == Position::Top || pos == Position::Bottom ==> filled <= h,
        0 <= w,
        0 <= h,
    ensures
        ({
            let r = filled_part(pos, w as int, h as int, filled as int);
            &&& 0 <= r.left <= r.right <= w
            &&& 0 <= r.top <= r.bottom <= h
            &&& match pos {
                Position::Left => r.left == 0 && r.right - r.left == filled,
                Position::Right => r.right == w && r.right - r.left == filled,
                Position::Top => r.top == 0 && r.bottom - r.top == filled,
                Position::Bottom => r.bottom == h && r.bottom - r.top == filled,
            }
        }),
{
}

/// The two ends of the arrow lie opposite each other across its tip: at the same distance from the
/// borders of the window, with the tip halfway between them.
pub proof fn law_arrow_is_symmetric(pos: Position, w: i32, h: i32)
    requires
        i32::MIN + 4 <= w,
        i32::MIN + 4 <= h,
    ensures
        ({
            let (a, tip, b) = arrow(pos, w as int, h as int);
            &&& pos is Left || pos is Right ==> {
                &&& a.x == b.x && a.x + tip.x == w
                &&& a.y == 4 && b.y == h - 4
                &&& h >= 0 ==> 0 <= h - 2 * tip.y <= 1
                &&& h < 0 ==> -1 <= h - 2 * tip.y <= 0
            }
            &&& pos is Top || pos is Bottom ==> {
                &&& a.y == b.y && a.y + tip.y == h
                &&& a.x == 4 && b.x == w - 4
                &&& w >= 0 ==> 0 <= w - 2 * tip.x <= 1
                &&& w < 0 ==> -1 <= w - 2 * tip.x <= 0
            }
            &&& pos is Left ==> tip.x == 4
            &&& pos is Right ==> a.x == 4
            &&& pos is Top ==> tip.y == 4
            &&& pos is Bottom ==> a.y == 4
        }),
{
}

/// The filled part reaches across the whole window along the edge.
pub proof fn law_progress_reaches_across(pos: Position, w: i32, h: i32, filled: i32)
    requires
        pos is Right ==> i32::MIN <= w - filled <= i32::MAX,
        pos is Bottom ==> i32::MIN <= h - filled <= i32::MAX,
    ensures
        ({
            let r = filled_part(pos, w as int, h as int, filled as int);
            &&& pos is Left || pos is Right ==> r.top == 0 && r.bottom == h && r.right - r.left
                == filled
            &&& pos is Top || pos is Bottom ==> r.left == 0 && r.right == w && r.bottom - r.top
                == filled
            &&& pos is Left ==> r.left == 0
            &&& pos is Right ==> r.right == w
            &&& pos is Top ==> r.top == 0
            &&& pos is Bottom ==> r.bottom == h
        }),
{
}

} // verus!

//! Points, displays and the edges between them.
use crate::bytes::{i32_from_pattern, i32_of_pattern};
use crate::position::Position;
use vstd::prelude::*;

verus! {

/// A point in virtual desktop coordinates.
#[derive(Clone, Copy, Debug, PartialEq, Eq, Structural)]
pub struct Point {
    pub x: i32,
    pub y: i32,
}

/// The area of a display: `right` and `bottom` are just outside.
#[derive(Clone, Copy, Debug, PartialEq, Eq, Structural)]
pub struct Rect {
    pub left: i32,
    pub top: i32,
    pub right: i32,
    pub bottom: i32,
}

impl Rect {
    /// Is `p` inside the display as far as the edge at `pos` is concerned?
    pub open spec fn behind_edge(self, p: Point, pos: Position) -> bool {
        match pos {
            Position::Left => self.left <= p.x,
            Position::Right => p.x < self.right,
            Position::Top => self.top <= p.y,
            Position::Bottom => p.y < self.bottom,
        }
    }

    /// Is `p` on the display?
    pub open spec fn has(self, p: Point) -> bool {
        self.left <= p.x < self.right && self.top <= p.y < self.bottom
    }
}

/// The first display that a point is on.
pub open spec fn display_at(displays: Seq<Rect>, p: Point) -> Option<Rect>
    decreases displays.len(),
{
    if displays.len() == 0 {
        None
    } else {
        match display_at(displays.drop_last(), p) {
            Some(d) => Some(d),
            None => if displays.last().has(p) {
                Some(displays.last())
            } else {
                None
            },
        }
    }
}

/// Half of `n`, rounded towards zero.
pub open spec fn half(n: int) -> int {
    if n < 0 {
        -((-n) / 2)
    } else {
        n / 2
    }
}

/// Where the cursor is kept while a client is active: the centre of the display it left from, or
/// the point itself where no display has it.
pub open spec fn anchor_of(entry: Point, displays: Seq<Rect>) -> Point {
    match display_at(displays, entry) {
        Some(d) => Point { x: half(d.left + d.right) as i32, y: half(d.top + d.bottom) as i32 },
        None => entry,
    }
}

/// The edge that a point touches on the display it is on. Corners belong to the left and right
/// edges.
pub open spec fn touched_edge(p: Point, displays: Seq<Rect>) -> Option<Position> {
    match display_at(displays, p) {
        None => None,
        Some(d) => if p.x == d.left {
            Some(Position::Left)
        } else if p.x == d.right - 1 {
            Some(Position::Right)
        } else if p.y == d.top {
            Some(Position::Top)
        } else if p.y == d.bottom - 1 {
            Some(Position::Bottom)
        } else {
            None
        },
    }
}

/// Is `p` behind the edge at `pos` of some display?
pub open spec fn behind_some_edge(p: Point, displays: Seq<Rect>, pos: Position) -> bool {
    exists|i: int| 0 <= i < displays.len() && (#[trigger] displays[i]).behind_edge(p, pos)
}

/// Did the cursor move from a display to beyond the edges at `pos` of all displays?
pub open spec fn crossed_edge(prev: Point, curr: Point, displays: Seq<Rect>, pos: Position) -> bool {
    display_at(displays, prev) is Some && !behind_some_edge(curr, displays, pos)
}

/// The side on which the cursor left all displays.
pub open spec fn crossed_side(prev: Point, curr: Point, displays: Seq<Rect>) -> Option<Position> {
    if crossed_edge(prev, curr, displays, Position::Left) {
        Some(Position::Left)
    } else if crossed_edge(prev, curr, displays, Position::Right) {
        Some(Position::Right)
    } else if crossed_edge(prev, curr, displays, Position::Top) {
        Some(Position::Top)
    } else if crossed_edge(prev, curr, displays, Position::Bottom) {
        Some(Position::Bottom)
    } else {
        None
    }
}

/// How far `curr` lies beyond the edge at `pos` of the display that the cursor came from.
pub open spec fn overshoot(prev: Point, curr: Point, displays: Seq<Rect>, pos: Position) -> int {
    match display_at(displays, prev) {
        None => i32::MAX as int,
        Some(d) => match pos {
            Position::Left => d.left - curr.x,
            Position::Right => curr.x - (d.right - 1),
            Position::Top => d.top - curr.y,
            Position::Bottom => curr.y - (d.bottom - 1),
        },
    }
}

/// `n` moved into the range from `low` to `high`.
pub open spec fn clamped(n: int, low: int, high: int) -> int {
    if n < low {
        low
    } else if n > high {
        high
    } else {
        n
    }
}

/// The point of display `d` nearest to `p`.
pub open spec fn nearest_on(d: Rect, p: Point) -> Point {
    Point {
        x: clamped(p.x as int, d.left as int, d.right - 1) as i32,
        y: clamped(p.y as int, d.top as int, d.bottom - 1) as i32,
    }
}

/// A point is on the display that is found for it.
pub proof fn lemma_display_at_has(displays: Seq<Rect>, p: Point)
    ensures
        display_at(displays, p) matches Some(d) ==> d.has(p) && displays.contains(d),
        display_at(displays, p) is None ==> forall|i: int|
            0 <= i < displays.len() ==> !(#[trigger] displays[i]).has(p),
    decreases displays.len(),
{
    if displays.len() > 0 {
        let init = displays.drop_last();
        lemma_display_at_has(init, p);
        match display_at(init, p) {
            Some(d) => {
                let i = choose|i: int| 0 <= i < init.len() && init[i] == d;
                assert(displays[i] == d);
            },
            None => {
                assert forall|i: int| 0 <= i < displays.len() implies display_at(displays, p)
                    is Some || !(#[trigger] displays[i]).has(p) by {
                    if i < init.len() {
                        assert(init[i] == displays[i]);
                    }
                }
                assert(displays[displays.len() - 1] == displays.last());
            },
        }
    }
}

/// Whenever the cursor crossed an edge, it lies at least one pixel beyond that edge of the display
/// it came from.
pub proof fn law_crossing_overshoots(prev: Point, curr: Point, displays: Seq<Rect>, pos: Position)
    requires
        crossed_side(prev, curr, displays) == Some(pos),
    ensures
        overshoot(prev, curr, displays, pos) >= 1,
{
    lemma_display_at_has(displays, prev);
    let d = display_at(displays, prev)->Some_0;
    let i = choose|i: int| 0 <= i < displays.len() && displays[i] == d;
    assert(!displays[i].behind_edge(curr, pos));
}

/// Is the point inside the display as far as the edge at `pos` is concerned?
pub fn is_within_dp_boundary(point: Point, display: &Rect, pos: Position) -> (b: bool)
    ensures
        b == display.behind_edge(point, pos),
{
    match pos {
        Position::Left => display.left <= point.x,
        Position::Right => display.right > point.x,
        Position::Top => display.top <= point.y,
        Position::Bottom => display.bottom > point.y,
    }
}

/// Is the point on the display?
pub fn is_within_dp_region(point: Point, display: &Rect) -> (b: bool)
    ensures
        b == display.has(point),
{
    is_within_dp_boundary(point, display, Position::Left) && is_within_dp_boundary(
        point,
        display,
        Position::Right,
    ) && is_within_dp_boundary(point, display, Position::Top) && is_within_dp_boundary(
        point,
        display,
        Position::Bottom,
    )
}

/// Finds the first display that a point is on.
pub fn find_display(point: Point, displays: &[Rect]) -> (r: Option<Rect>)
    ensures
        r == display_at(displays@, point),
{
    let n: usize = displays.len();
    let mut i: usize = 0;
    while i < n
        invariant
            i <= n,
            n == displays@.len(),
            display_at(displays@.take(i as int), point) is None,
        decreases n - i,
    {
        let d: Rect = displays[i];
        assert(displays@.take(i + 1).drop_last() =~= displays@.take(i as int));
        if is_within_dp_region(point, &d) {
            proof {
                lemma_display_at_extends(displays@, point, i + 1);
            }
            return Some(d);
        }
        i = i + 1;
    }
    assert(displays@.take(n as int) =~= displays@);
    None
}

proof fn lemma_display_at_extends(displays: Seq<Rect>, p: Point, k: int)
    requires
        0 <= k <= displays.len(),
        display_at(displays.take(k), p) is Some,
    ensures
        display_at(displays, p) == display_at(displays.take(k), p),
    decreases displays.len() - k,
{
    if k < displays.len() {
        assert(displays.take(k + 1).drop_last() =~= displays.take(k));
        lemma_display_at_extends(displays, p, k + 1);
    } else {
        assert(displays.take(k) =~= displays);
    }
}

/// Is the point behind the edge at `pos` of some display?
pub fn in_bounds(point: Point, displays: &[Rect], pos: Position) -> (b: bool)
    ensures
        b == behind_some_edge(point, displays@, pos),
{
    let n: usize = displays.len();
    let mut i: usize = 0;
    while i < n
        invariant
            i <= n,
            n == displays@.len(),
            forall|k: int| 0 <= k < i ==> !(#[trigger] displays@[k]).behind_edge(point, pos),
        decreases n - i,
    {
        if is_within_dp_boundary(point, &displays[i], pos) {
            assert(displays@[i as int].behind_edge(point, pos));
            return true;
        }
        i = i + 1;
    }
    false
}

/// Is the point on some display?
pub fn in_display_region(point: Point, displays: &[Rect]) -> (b: bool)
    ensures
        b == (display_at(displays@, point) is Some),
        b == exists|i: int| 0 <= i < displays@.len() && (#[trigger] displays@[i]).has(point),
{
    proof {
        lemma_display_at_has(displays@, point);
    }
    find_display(point, displays).is_some()
}

/// Was the cursor on a display, and is it now beyond the edges at `pos` of all of them?
pub fn moved_across_boundary(
    prev_pos: Point,
    curr_pos: Point,
    displays: &[Rect],
    pos: Position,
) -> (b: bool)
    ensures
        b == crossed_edge(prev_pos, curr_pos, displays@, pos),
{
    in_display_region(prev_pos, displays) && !in_bounds(curr_pos, displays, pos)
}

/// The side on which the cursor left all displays.
pub fn entered_barrier(prev_pos: Point, curr_pos: Point, displays: &[Rect]) -> (r: Option<Position>)
    ensures
        r == crossed_side(prev_pos, curr_pos, displays@),
{
    if moved_across_boundary(prev_pos, curr_pos, displays, Position::Left) {
        Some(Position::Left)
    } else if moved_across_boundary(prev_pos, curr_pos, displays, Position::Right) {
        Some(Position::Right)
    } else if moved_across_boundary(prev_pos, curr_pos, displays, Position::Top) {
        Some(Position::Top)
    } else if moved_across_boundary(prev_pos, curr_pos, displays, Position::Bottom) {
        Some(Position::Bottom)
    } else {
        None
    }
}

/// How many pixels the cursor lies beyond the edge at `pos` of the display it came from. Where it
/// came from no display this cannot be measured, and the largest coordinate stands for that.
pub fn crossing_overshoot(prev: Point, curr: Point, displays: &[Rect], pos: Position) -> (n: i64)
    ensures
        n == overshoot(prev, curr, displays@, pos),
{
    match find_display(prev, displays) {
        None => i32::MAX as i64,
        Some(d) => match pos {
            Position::Left => d.left as i64 - curr.x as i64,
            Position::Right => curr.x as i64 - (d.right as i64 - 1),
            Position::Top => d.top as i64 - curr.y as i64,
            Position::Bottom => curr.y as i64 - (d.bottom as i64 - 1),
        },
    }
}

/// The edge that the point touches, or nothing where it is in the interior or outside.
pub fn at_barrier(point: Point, displays: &[Rect]) -> (r: Option<Position>)
    ensures
        r == touched_edge(point, displays@),
{
    proof {
        lemma_display_at_has(displays@, point);
    }
    match find_display(point, displays) {
        None => None,
        Some(d) => {
            if point.x <= d.left {
                Some(Position::Left)
            } else if point.x >= d.right - 1 {
                Some(Position::Right)
            } else if point.y <= d.top {
                Some(Position::Top)
            } else if point.y >= d.bottom - 1 {
                Some(Position::Bottom)
            } else {
                None
            }
        },
    }
}

/// Half of `n`, rounded towards zero.
pub(crate) fn halved(n: i64) -> (h: i64)
    requires
        -0x1_0000_0000 <= n <= 0x1_0000_0000,
    ensures
        h == half(n as int),
{
    if n < 0 {
        let m: u64 = (0 - n) as u64;
        0 - ((m / 2) as i64)
    } else {
        (n as u64 / 2) as i64
    }
}

/// Where the cursor is kept while a client is active.
pub fn anchor_for_entry(entry: Point, displays: &[Rect]) -> (p: Point)
    ensures
        p == anchor_of(entry, displays@),
{
    match find_display(entry, displays) {
        Some(d) => Point {
            x: halved(d.left as i64 + d.right as i64) as i32,
            y: halved(d.top as i64 + d.bottom as i64) as i32,
        },
        None => entry,
    }
}

/// Moves a number into the range from `low` to `high`.
fn clamp(n: i32, low: i32, high: i32) -> (r: i32)
    requires
        low <= high,
    ensures
        r == clamped(n as int, low as int, high as int),
{
    if n < low {
        low
    } else if n > high {
        high
    } else {
        n
    }
}

/// Clamps a point to the display that the cursor came from.
pub fn clamp_to_display_bounds(prev_point: Point, point: Point, displays: &[Rect]) -> (p: Point)
    requires
        display_at(displays@, prev_point) is Some,
    ensures
        p == nearest_on(display_at(displays@, prev_point)->Some_0, point),
        display_at(displays@, prev_point)->Some_0.has(p),
{
    proof {
        lemma_display_at_has(displays@, prev_point);
    }
    match find_display(prev_point, displays) {
        Some(d) => Point {
            x: clamp(point.x, d.left, d.right - 1),
            y: clamp(point.y, d.top, d.bottom - 1),
        },
        None => point,
    }
}

/// A display device as the system reports it: whether it is part of the desktop, where it stands,
/// and how large it is.
#[derive(Clone, Copy, Debug, PartialEq, Eq, Structural)]
pub struct DisplayDevice {
    pub attached: bool,
    pub x: i32,
    pub y: i32,
    pub width: u32,
    pub height: u32,
}

impl DisplayDevice {
    /// The coordinate just right of the device; the width is read as a signed number.
    pub open spec fn right(self) -> int {
        self.x + i32_of_pattern(self.width as nat)
    }

    /// The coordinate just below the device; the height is read as a signed number.
    pub open spec fn bottom(self) -> int {
        self.y + i32_of_pattern(self.height as nat)
    }

    /// Can the far edges of the device be written as coordinates?
    pub open spec fn fits(self) -> bool {
        i32::MIN <= self.right() <= i32::MAX && i32::MIN <= self.bottom() <= i32::MAX
    }

    /// The area of the device.
    pub open spec fn area(self) -> Rect {
        Rect {
            left: self.x,
            top: self.y,
            right: self.right() as i32,
            bottom: self.bottom() as i32,
        }
    }
}

/// Do the state flags of a device say that it is part of the desktop?
pub fn is_attached(state_flags: u32) -> (b: bool)
    ensures
        b == (state_flags % 2 == 1),
{
    state_flags % 2 == 1
}

/// The areas of the devices that are part of the desktop, in order.
pub open spec fn areas(devices: Seq<DisplayDevice>) -> Seq<Rect>
    decreases devices.len(),
{
    if devices.len() == 0 {
        Seq::empty()
    } else {
        let init = areas(devices.drop_last());
        if devices.last().attached {
            init.push(devices.last().area())
        } else {
            init
        }
    }
}

/// Lists the areas of the devices that are part of the desktop.
pub fn enumerate_displays(devices: &[DisplayDevice]) -> (rects: Vec<Rect>)
    requires
        forall|i: int|
            0 <= i < devices@.len() && (#[trigger] devices@[i]).attached ==> devices@[i].fits(),
    ensures
        rects@ == areas(devices@),
{
    let mut rects: Vec<Rect> = Vec::new();
    let n: usize = devices.len();
    let mut i: usize = 0;
    while i < n
        invariant
            i <= n,
            n == devices@.len(),
            rects@ == areas(devices@.take(i as int)),
            forall|k: int|
                0 <= k < devices@.len() && (#[trigger] devices@[k]).attached ==> devices@[k].fits(),
        decreases n - i,
    {
        let d: DisplayDevice = devices[i];
        assert(devices@[i as int] == d);
        assert(devices@.take(i + 1).drop_last() =~= devices@.take(i as int));
        if d.attached {
            rects.push(
                Rect {
                    left: d.x,
                    top: d.y,
                    right: d.x + i32_from_pattern(d.width),
                    bottom: d.y + i32_from_pattern(d.height),
                },
            );
        }
        i = i + 1;
    }
    assert(devices@.take(n as int) =~= devices@);
    rects
}

/// Is display `i` the first one that `p` is on?
pub open spec fn is_first_with(displays: Seq<Rect>, p: Point, i: int) -> bool {
    &&& 0 <= i < displays.len()
    &&& displays[i].left <= p.x < displays[i].right
    &&& displays[i].top <= p.y < displays[i].bottom
    &&& forall|j: int|
        0 <= j < i ==> {
            let d = #[trigger] displays[j];
            p.x < d.left || d.right <= p.x || p.y < d.top || d.bottom <= p.y
        }
}

/// Is `p` on none of the displays?
pub open spec fn on_no_display(displays: Seq<Rect>, p: Point) -> bool {
    forall|j: int|
        0 <= j < displays.len() ==> {
            let d = #[trigger] displays[j];
            p.x < d.left || d.right <= p.x || p.y < d.top || d.bottom <= p.y
        }
}

/// Does `p` lie beyond all displays on the side `pos`?
pub open spec fn beyond_all(displays: Seq<Rect>, p: Point, pos: Position) -> bool {
    forall|j: int|
        0 <= j < displays.len() ==> {
            let d = #[trigger] displays[j];
            match pos {
                Position::Left => p.x < d.left,
                Position::Right => p.x >= d.right,
                Position::Top => p.y < d.top,
                Position::Bottom => p.y >= d.bottom,
            }
        }
}

/// The display that is found for a point is the first one whose area the point lies in, and none is
/// found only where the point lies in none.
pub proof fn law_first_display_is_found(displays: Seq<Rect>, p: Point)
    ensures
        forall|i: int| #[trigger]
            is_first_with(displays, p, i) ==> display_at(displays, p) == Some(displays[i]),
        display_at(displays, p) is None <==> on_no_display(displays, p),
    decreases displays.len(),
{
    if displays.len() > 0 {
        let init = displays.drop_last();
        let n = displays.len() - 1;
        law_first_display_is_found(init, p);
        assert forall|i: int| #[trigger] is_first_with(displays, p, i) implies display_at(
            displays,
            p,
        ) == Some(displays[i]) by {
            if i < n {
                assert(init[i] == displays[i]);
                assert forall|j: int| 0 <= j < i implies #[trigger] init[j] == displays[j] by {}
                assert(is_first_with(init, p, i));
            } else {
                assert forall|j: int| 0 <= j < init.len() implies #[trigger] init[j]
                    == displays[j] by {}
                assert(on_no_display(init, p));
            }
        }
        if display_at(displays, p) is None {
            assert forall|j: int| 0 <= j < displays.len() implies {
                let d = #[trigger] displays[j];
                p.x < d.left || d.right <= p.x || p.y < d.top || d.bottom <= p.y
            } by {
                if j < n {
                    assert(init[j] == displays[j]);
                }
            }
        }
        if on_no_display(displays, p) {
            assert forall|j: int| 0 <= j < init.len() implies {
                let d = #[trigger] init[j];
                p.x < d.left || d.right <= p.x || p.y < d.top || d.bottom <= p.y
            } by {
                assert(init[j] == displays[j]);
            }
            assert(displays[n] == displays.last());
        }
    }
}

/// The cursor leaves on the side on which it lies beyond all displays, provided that it came from
/// one of them. Left and right go before top and bottom.
pub proof fn law_left_through_the_side_beyond(prev: Point, curr: Point, displays: Seq<Rect>)
    ensures
        on_no_display(displays, prev) ==> crossed_side(prev, curr, displays) is None,
        !on_no_display(displays, prev) ==> {
            let side = crossed_side(prev, curr, displays);
            let left = beyond_all(displays, curr, Position::Left);
            let right = beyond_all(displays, curr, Position::Right);
            let top = beyond_all(displays, curr, Position::Top);
            let bottom = beyond_all(displays, curr, Position::Bottom);
            &&& left ==> side == Some(Position::Left)
            &&& !left && right ==> side == Some(Position::Right)
            &&& !left && !right && top ==> side == Some(Position::Top)
            &&& !left && !right && !top && bottom ==> side == Some(Position::Bottom)
            &&& !left && !right && !top && !bottom ==> side is None
        },
{
    law_first_display_is_found(displays, prev);
    assert forall|pos: Position| #[trigger]
        behind_some_edge(curr, displays, pos) == !beyond_all(displays, curr, pos) by {
        if behind_some_edge(curr, displays, pos) {
            let i = choose|i: int|
                0 <= i < displays.len() && (#[trigger] displays[i]).behind_edge(curr, pos);
            assert(displays[i].behind_edge(curr, pos));
        }
        if !beyond_all(displays, curr, pos) {
            let j = choose|j: int|
                0 <= j < displays.len() && !{
                    let d = #[trigger] displays[j];
                    match pos {
                        Position::Left => curr.x < d.left,
                        Position::Right => curr.x >= d.right,
                        Position::Top => curr.y < d.top,
                        Position::Bottom => curr.y >= d.bottom,
                    }
                };
            assert(displays[j].behind_edge(curr, pos));
        }
    }
}

/// A crossing is measured from the last pixel of the display that the cursor came from: the first
/// pixel beyond it counts one.
pub proof fn law_overshoot_counts_pixels(prev: Point, curr: Point, displays: Seq<Rect>, i: int)
    requires
        is_first_with(displays, prev, i),
    ensures
        curr.x + overshoot(prev, curr, displays, Position::Left) == displays[i].left,
        curr.x - overshoot(prev, curr, displays, Position::Right) == displays[i].right - 1,
        curr.y + overshoot(prev, curr, displays, Position::Top) == displays[i].top,
        curr.y - overshoot(prev, curr, displays, Position::Bottom) == displays[i].bottom - 1,
{
    law_first_display_is_found(displays, prev);
}

/// A point touches the edge whose row or column of pixels it is in; in a corner that is the left or
/// the right edge.
pub proof fn law_edge_pixels_are_touched(p: Point, displays: Seq<Rect>, i: int)
    requires
        is_first_with(displays, p, i),
    ensures
        ({
            let d = displays[i];
            let edge = touched_edge(p, displays);
            &&& edge == Some(Position::Left) <==> p.x == d.left
            &&& edge == Some(Position::Right) <==> p.x + 1 == d.right && p.x > d.left
            &&& edge == Some(Position::Top) <==> p.y == d.top && d.left < p.x < d.right - 1
            &&& edge == Some(Position::Bottom) <==> p.y + 1 == d.bottom && p.y > d.top && d.left
                < p.x < d.right - 1
            &&& edge is None <==> d.left < p.x < d.right - 1 && d.top < p.y < d.bottom - 1
        }),
{
    law_first_display_is_found(displays, p);
}

/// A point outside all displays touches no edge.
pub proof fn law_outside_touches_nothing(p: Point, displays: Seq<Rect>)
    requires
        on_no_display(displays, p),
    ensures
        touched_edge(p, displays) is None,
        anchor_of(p, displays) == p,
{
    law_first_display_is_found(displays, p);
}

/// The cursor is kept in the middle of the display it left from: as far from its left as from its
/// right and from its top as from its bottom, to within a pixel.
pub proof fn law_anchor_is_the_middle(entry: Point, displays: Seq<Rect>, i: int)
    requires
        is_first_with(displays, entry, i),
    ensures
        ({
            let d = displays[i];
            let a = anchor_of(entry, displays);
            &&& d.left + d.right >= 0 ==> 0 <= (d.right - a.x) - (a.x - d.left) <= 1
            &&& d.left + d.right < 0 ==> -1 <= (d.right - a.x) - (a.x - d.left) <= 0
            &&& d.top + d.bottom >= 0 ==> 0 <= (d.bottom - a.y) - (a.y - d.top) <= 1
            &&& d.top + d.bottom < 0 ==> -1 <= (d.bottom - a.y) - (a.y - d.top) <= 0
        }),
{
    law_first_display_is_found(displays, entry);
}

/// A half is rounded towards zero.
pub proof fn law_halves_are_rounded_towards_zero(n: int)
    ensures
        n >= 0 ==> 0 <= n - 2 * half(n) <= 1,
        n < 0 ==> -1 <= n - 2 * half(n) <= 0,
{
}

/// The point that stands for another one on a display differs from it only as far as it must: a
/// coordinate that is within the display stays, and one that is not goes to the border.
pub proof fn law_nearest_point_moves_no_further_than_needed(d: Rect, p: Point)
    requires
        d.left < d.right,
        d.top < d.bottom,
    ensures
        d.left <= p.x < d.right ==> nearest_on(d, p).x == p.x,
        p.x < d.left ==> nearest_on(d, p).x == d.left,
        p.x >= d.right ==> nearest_on(d, p).x == d.right - 1,
        d.top <= p.y < d.bottom ==> nearest_on(d, p).y == p.y,
        p.y < d.top ==> nearest_on(d, p).y == d.top,
        p.y >= d.bottom ==> nearest_on(d, p).y == d.bottom - 1,
{
}

/// The displays are the devices that are part of the desktop, in their order, each with its own
/// place and size.
pub proof fn law_displays_are_the_attached_devices(devices: Seq<DisplayDevice>, d: DisplayDevice)
    requires
        i32::MIN <= d.x + i32_of_pattern(d.width as nat) <= i32::MAX,
        i32::MIN <= d.y + i32_of_pattern(d.height as nat) <= i32::MAX,
    ensures
        d.fits(),
        areas(Seq::empty()).len() == 0,
        !d.attached ==> areas(devices.push(d)) == areas(devices),
        d.attached ==> {
            let r = areas(devices.push(d));
            &&& r.len() == areas(devices).len() + 1
            &&& r.drop_last() == areas(devices)
            &&& r.last().left == d.x
            &&& r.last().top == d.y
            &&& r.last().right - r.last().left == i32_of_pattern(d.width as nat)
            &&& r.last().bottom - r.last().top == i32_of_pattern(d.height as nat)
        },
{
    assert(devices.push(d).drop_last() =~= devices);
    assert(areas(devices).push(d.area()).drop_last() =~= areas(devices));
}

} // verus!

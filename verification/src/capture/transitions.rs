//! What each event leads to in edge capture.
use crate::capture::edge::{
    indicator_place, passed, ClientSet, Disposition, EdgeCapture, Effect, MouseInput, Pending,
    Released, Settings,
};
use crate::capture::geometry::{
    anchor_of, beyond_all, crossed_side, display_at, is_first_with, law_first_display_is_found,
    law_left_through_the_side_beyond, law_overshoot_counts_pixels, lemma_display_at_has,
    nearest_on, on_no_display, overshoot, touched_edge, Point, Rect,
};
use crate::capture::hooks::{
    leftmost, Request, ThreadMessage, DWELL_TIMER_ID, WM_DISPLAYCHANGE, WM_TIMER,
};
use crate::capture::indicator::{INDICATOR_TIMER_ID, WM_PAINT};
use crate::position::Position;
use vstd::prelude::*;

verus! {

/// A neighbour is noted for its own side and for no other.
pub proof fn law_sides_are_kept_apart(c: ClientSet, pos: Position, other: Position, present: bool)
    ensures
        c.with(pos, present).has(pos) == present,
        other != pos ==> c.with(pos, present).has(other) == c.has(other),
        c.has(Position::Left) == c.left,
        c.has(Position::Right) == c.right,
        c.has(Position::Top) == c.top,
        c.has(Position::Bottom) == c.bottom,
{
}

/// Time is compared in whole nanoseconds, a million to the millisecond, and a moment that lies in
/// the future has not passed at all.
pub proof fn law_time_passes_in_nanoseconds(now: u64, then: u64, ms: u64)
    ensures
        now >= then ==> (passed(now, then, ms) <==> then + 1_000_000 * ms <= now),
        now < then ==> (passed(now, then, ms) <==> ms == 0),
{
}

/// How far `curr` lies beyond the edge at `pos` of `d`, counted in pixels.
pub open spec fn pixels_beyond(d: Rect, curr: Point, pos: Position) -> int {
    match pos {
        Position::Left => d.left - curr.x,
        Position::Right => curr.x - d.right + 1,
        Position::Top => d.top - curr.y,
        Position::Bottom => curr.y - d.bottom + 1,
    }
}

/// Is `pos` the side through which a cursor at `curr` has left all displays? In a corner, left and
/// right go before top and bottom.
pub open spec fn left_through(displays: Seq<Rect>, curr: Point, pos: Position) -> bool {
    let left = beyond_all(displays, curr, Position::Left);
    let right = beyond_all(displays, curr, Position::Right);
    let top = beyond_all(displays, curr, Position::Top);
    match pos {
        Position::Left => left,
        Position::Right => right && !left,
        Position::Top => top && !left && !right,
        Position::Bottom => beyond_all(displays, curr, Position::Bottom) && !left && !right && !top,
    }
}

/// Is the side open, because nothing was released there, or long enough ago?
pub open spec fn open_again(s: EdgeCapture, pos: Position, now: u64, cfg: Settings) -> bool {
    cfg.rearm == 0 || (s.last_release matches Some(r) ==> r.pos != pos || r.at + 1_000_000
        * cfg.rearm <= now)
}

proof fn lemma_crossing(prev: Point, curr: Point, displays: Seq<Rect>, i: int, pos: Position)
    requires
        is_first_with(displays, prev, i),
        left_through(displays, curr, pos),
    ensures
        crossed_side(prev, curr, displays) == Some(pos),
        overshoot(prev, curr, displays, pos) == pixels_beyond(displays[i], curr, pos),
        EdgeCapture::entry_of(prev, curr, displays) == nearest_on(displays[i], curr),
{
    law_first_display_is_found(displays, prev);
    law_left_through_the_side_beyond(prev, curr, displays);
    law_overshoot_counts_pixels(prev, curr, displays, i);
}

/// With no dwell time, a motion from a display to beyond a side of all of them, by at least the
/// margin, moves over to the client on that side, whichever of the four it is: this is reported, and
/// the cursor is put to its anchor.
pub proof fn law_crossing_moves_over(
    s: EdgeCapture,
    prev: Point,
    curr: Point,
    displays: Seq<Rect>,
    i: int,
    pos: Position,
    now: u64,
    cfg: Settings,
)
    requires
        s.active is None,
        s.pending is None,
        s.prev == Some(prev),
        is_first_with(displays, prev, i),
        left_through(displays, curr, pos),
        pixels_beyond(displays[i], curr, pos) >= cfg.margin,
        s.clients.has(pos),
        open_again(s, pos, now, cfg),
        cfg.dwell == 0,
    ensures
        ({
            let r = s.moved(curr, displays, now, cfg);
            &&& r.0.active == Some(pos)
            &&& r.1.len() == 2
            &&& r.1[0] == Effect::Begin(pos)
            &&& r.1[1] == Effect::Warp(r.0.anchor)
            &&& r.0.anchor == anchor_of(r.0.entry, displays)
            &&& r.0.entry == nearest_on(displays[i], curr)
            &&& r.0.prev == Some(curr)
            &&& r.0.pending is None
            &&& r.0.clients == s.clients
            &&& r.0.last_release == s.last_release
            &&& r.0.cursor_hidden == s.cursor_hidden
            &&& r.0.displays_stale == s.displays_stale
            &&& (r.0.injected - s.injected - 1) % 0x1_0000_0000 == 0
        }),
{
    lemma_crossing(prev, curr, displays, i, pos);
    if let Some(r) = s.last_release {
        law_time_passes_in_nanoseconds(now, r.at, cfg.rearm);
    }
}

/// With no dwell time, any other motion does nothing: one that leaves through no side, not far
/// enough, where there is no client, or where one was just released.
pub proof fn law_any_other_motion_does_nothing(
    s: EdgeCapture,
    prev: Point,
    curr: Point,
    displays: Seq<Rect>,
    i: int,
    now: u64,
    cfg: Settings,
)
    requires
        s.active is None,
        s.pending is None,
        s.prev == Some(prev),
        is_first_with(displays, prev, i),
        cfg.dwell == 0,
        forall|pos: Position| #[trigger]
            left_through(displays, curr, pos) ==> pixels_beyond(displays[i], curr, pos) < cfg.margin
                || !s.clients.has(pos) || !open_again(s, pos, now, cfg),
    ensures
        s.moved(curr, displays, now, cfg).0 == (EdgeCapture { prev: Some(curr), ..s }),
        s.moved(curr, displays, now, cfg).1.len() == 0,
{
    law_first_display_is_found(displays, prev);
    law_left_through_the_side_beyond(prev, curr, displays);
    law_overshoot_counts_pixels(prev, curr, displays, i);
    if let Some(r) = s.last_release {
        law_time_passes_in_nanoseconds(now, r.at, cfg.rearm);
    }
    if let Some(pos) = crossed_side(prev, curr, displays) {
        assert(left_through(displays, curr, pos));
    }
}

/// A motion that did not start on a display moves over to no client.
pub proof fn law_only_from_a_display(
    s: EdgeCapture,
    prev: Point,
    curr: Point,
    displays: Seq<Rect>,
    now: u64,
    cfg: Settings,
)
    requires
        s.active is None,
        s.pending is None,
        s.prev == Some(prev),
        on_no_display(displays, prev),
        cfg.dwell == 0,
    ensures
        s.moved(curr, displays, now, cfg).0 == (EdgeCapture { prev: Some(curr), ..s }),
        s.moved(curr, displays, now, cfg).1.len() == 0,
{
    law_left_through_the_side_beyond(prev, curr, displays);
}

/// With a dwell time, a cursor that touches an edge with a client waits there: the timer is started
/// with the dwell time, and the indicator is shown next to the cursor, which is hidden unless this
/// is a demonstration.
pub proof fn law_touching_an_edge_waits(
    s: EdgeCapture,
    prev: Point,
    curr: Point,
    displays: Seq<Rect>,
    k: int,
    i: int,
    pos: Position,
    now: u64,
    cfg: Settings,
)
    requires
        s.active is None,
        s.pending is None,
        !s.cursor_hidden,
        s.prev == Some(prev),
        is_first_with(displays, prev, k),
        is_first_with(displays, curr, i),
        touched_edge(curr, displays) == Some(pos),
        s.clients.has(pos),
        open_again(s, pos, now, cfg),
        0 < cfg.dwell < 0x1_0000_0000,
    ensures
        ({
            let r = s.moved(curr, displays, now, cfg);
            let place = indicator_place(pos, curr, displays[i]);
            &&& r.0.active is None
            &&& r.0.pending == Some(
                Pending { pos: pos, entry: nearest_on(displays[k], curr), started: now },
            )
            &&& r.0.prev == Some(curr)
            &&& r.0.clients == s.clients
            &&& r.0.last_release == s.last_release
            &&& r.0.injected == s.injected
            &&& r.1.len() > 0 && r.1[0] == Effect::SetDwellTimer(cfg.dwell as u32)
            &&& !cfg.indicator ==> r.1.len() == 1 && !r.0.cursor_hidden
            &&& cfg.indicator && cfg.demo ==> r.1 == seq![r.1[0], place] && !r.0.cursor_hidden
            &&& cfg.indicator && !cfg.demo ==> r.1 == seq![r.1[0], place, Effect::ShowCursor(false)]
                && r.0.cursor_hidden
            &&& cfg.indicator ==> r.0.indicator_pos == pos
        }),
{
    law_first_display_is_found(displays, prev);
    law_first_display_is_found(displays, curr);
    law_left_through_the_side_beyond(prev, curr, displays);
    assert(displays[i] == displays[i]);
    assert(crossed_side(prev, curr, displays) is None);
    if let Some(r) = s.last_release {
        law_time_passes_in_nanoseconds(now, r.at, cfg.rearm);
    }
    let r = s.moved(curr, displays, now, cfg);
    let place = indicator_place(pos, curr, displays[i]);
    if cfg.indicator && cfg.demo {
        assert(r.1 =~= seq![r.1[0], place]);
    } else if cfg.indicator {
        assert(r.1 =~= seq![r.1[0], place, Effect::ShowCursor(false)]);
    }
}

/// With a dwell time, a cursor that crosses a side with a client by the margin waits there too, and
/// enters at the nearest point of the display it came from.
pub proof fn law_crossing_waits(
    s: EdgeCapture,
    prev: Point,
    curr: Point,
    displays: Seq<Rect>,
    i: int,
    pos: Position,
    now: u64,
    cfg: Settings,
)
    requires
        s.active is None,
        s.pending is None,
        s.prev == Some(prev),
        is_first_with(displays, prev, i),
        left_through(displays, curr, pos),
        on_no_display(displays, curr),
        pixels_beyond(displays[i], curr, pos) >= cfg.margin,
        s.clients.has(pos),
        open_again(s, pos, now, cfg),
        0 < cfg.dwell < 0x1_0000_0000,
    ensures
        ({
            let r = s.moved(curr, displays, now, cfg);
            &&& r.0 == (EdgeCapture {
                prev: Some(curr),
                pending: Some(
                    Pending { pos: pos, entry: nearest_on(displays[i], curr), started: now },
                ),
                ..s
            })
            &&& r.1 == seq![Effect::SetDwellTimer(cfg.dwell as u32)]
        }),
{
    lemma_crossing(prev, curr, displays, i, pos);
    law_first_display_is_found(displays, curr);
    if let Some(r) = s.last_release {
        law_time_passes_in_nanoseconds(now, r.at, cfg.rearm);
    }
    assert(s.moved(curr, displays, now, cfg).1 =~= seq![Effect::SetDwellTimer(cfg.dwell as u32)]);
}

/// A side with no client, or one that was just released, is not waited at.
pub proof fn law_no_wait_without_an_open_client(
    s: EdgeCapture,
    curr: Point,
    displays: Seq<Rect>,
    i: int,
    pos: Position,
    now: u64,
    cfg: Settings,
)
    requires
        s.active is None,
        s.pending is None,
        is_first_with(displays, curr, i),
        touched_edge(curr, displays) == Some(pos),
        !s.clients.has(pos) || !open_again(s, pos, now, cfg),
    ensures
        s.moved(curr, displays, now, cfg).0 == (EdgeCapture { prev: Some(curr), ..s }),
        s.moved(curr, displays, now, cfg).1.len() == 0,
{
    let prev = match s.prev {
        Some(p) => p,
        None => curr,
    };
    law_left_through_the_side_beyond(prev, curr, displays);
    assert(displays[i] == displays[i]);
    if let Some(r) = s.last_release {
        law_time_passes_in_nanoseconds(now, r.at, cfg.rearm);
    }
}

/// Giving up a wait takes the indicator away and brings the cursor back, and what else is known
/// stays.
pub proof fn law_giving_up_tidies_up(s: EdgeCapture, cfg: Settings)
    ensures
        ({
            let r = s.given_up(cfg);
            let shown = cfg.indicator && !cfg.demo;
            &&& r.0 == (EdgeCapture { pending: None, cursor_hidden: false, ..s })
            &&& shown && s.cursor_hidden ==> r.1 == seq![
                Effect::HideIndicator,
                Effect::ShowCursor(true),
            ]
            &&& shown && !s.cursor_hidden ==> r.1 == seq![Effect::HideIndicator]
            &&& !shown && s.cursor_hidden ==> r.1 == seq![Effect::ShowCursor(true)]
            &&& !shown && !s.cursor_hidden ==> r.1.len() == 0
        }),
{
    let r = s.given_up(cfg);
    if cfg.indicator && !cfg.demo {
        if s.cursor_hidden {
            assert(r.1 =~= seq![Effect::HideIndicator, Effect::ShowCursor(true)]);
        } else {
            assert(r.1 =~= seq![Effect::HideIndicator]);
        }
    } else if s.cursor_hidden {
        assert(r.1 =~= seq![Effect::ShowCursor(true)]);
    }
}

/// A cursor that stays at the edge goes on waiting until the dwell time is over, and is then with the
/// client that it waited for, or with none where that one is gone.
pub proof fn law_resting_moves_over_in_time(
    s: EdgeCapture,
    p: Pending,
    curr: Point,
    displays: Seq<Rect>,
    now: u64,
    cfg: Settings,
)
    requires
        s.active is None,
        s.pending == Some(p),
        p.started <= now,
        touched_edge(curr, displays) == Some(p.pos),
    ensures
        ({
            let r = s.moved(curr, displays, now, cfg);
            let shown = cfg.indicator && !cfg.demo;
            let over = p.started + 1_000_000 * cfg.dwell <= now;
            let anchor = anchor_of(p.entry, displays);
            &&& !over ==> r.0 == (EdgeCapture { prev: Some(curr), ..s }) && r.1.len() == 0
            &&& over && s.clients.has(p.pos) ==> {
                &&& r.0.active == Some(p.pos)
                &&& r.0.pending is None
                &&& r.0.entry == p.entry
                &&& r.0.anchor == anchor
                &&& r.0.clients == s.clients
                &&& (r.0.injected - s.injected - 1) % 0x1_0000_0000 == 0
                &&& r.0.cursor_hidden == s.cursor_hidden
                &&& shown ==> r.1 == seq![
                    Effect::KillDwellTimer,
                    Effect::HideIndicator,
                    Effect::Begin(p.pos),
                    Effect::Warp(anchor),
                ]
                &&& !shown ==> r.1 == seq![
                    Effect::KillDwellTimer,
                    Effect::Begin(p.pos),
                    Effect::Warp(anchor),
                ]
            }
            &&& over && !s.clients.has(p.pos) ==> {
                &&& r.0 == (EdgeCapture {
                    prev: Some(curr),
                    pending: None,
                    cursor_hidden: false,
                    ..s
                })
                &&& r.1 == seq![Effect::KillDwellTimer] + s.given_up(cfg).1
            }
        }),
{
    law_time_passes_in_nanoseconds(now, p.started, cfg.dwell);
    let r = s.moved(curr, displays, now, cfg);
    let anchor = anchor_of(p.entry, displays);
    if p.started + 1_000_000 * cfg.dwell <= now && s.clients.has(p.pos) {
        if cfg.indicator && !cfg.demo {
            assert(r.1 =~= seq![
                Effect::KillDwellTimer,
                Effect::HideIndicator,
                Effect::Begin(p.pos),
                Effect::Warp(anchor),
            ]);
        } else {
            assert(r.1 =~= seq![
                Effect::KillDwellTimer,
                Effect::Begin(p.pos),
                Effect::Warp(anchor),
            ]);
        }
    }
}

/// A cursor that moves away from the edge into the display no longer waits: the timer is stopped,
/// the indicator goes away and the cursor comes back.
pub proof fn law_moving_away_ends_the_wait(
    s: EdgeCapture,
    p: Pending,
    curr: Point,
    displays: Seq<Rect>,
    i: int,
    now: u64,
    cfg: Settings,
)
    requires
        s.active is None,
        s.pending == Some(p),
        is_first_with(displays, curr, i),
        touched_edge(curr, displays) is None,
    ensures
        ({
            let r = s.moved(curr, displays, now, cfg);
            &&& r.0 == (EdgeCapture { prev: Some(curr), pending: None, cursor_hidden: false, ..s })
            &&& r.1 == seq![Effect::KillDwellTimer] + s.given_up(cfg).1
        }),
{
    let prev = match s.prev {
        Some(q) => q,
        None => curr,
    };
    law_left_through_the_side_beyond(prev, curr, displays);
    assert(displays[i] == displays[i]);
    let r = s.moved(curr, displays, now, cfg);
    assert(r.1 =~= seq![Effect::KillDwellTimer] + s.given_up(cfg).1);
}

/// The indicator is shown only where its window exists and the cursor is on a display. It hides the
/// cursor, but not twice, and not in a demonstration.
pub proof fn law_indicator_hides_the_cursor_once(
    s: EdgeCapture,
    pos: Position,
    cursor: Point,
    displays: Seq<Rect>,
    i: int,
    cfg: Settings,
)
    ensures
        ({
            let r = s.showing(pos, cursor, displays, cfg);
            let place = indicator_place(pos, cursor, displays[i]);
            &&& !cfg.indicator || on_no_display(displays, cursor) ==> r.0 == s && r.1.len() == 0
            &&& cfg.indicator && is_first_with(displays, cursor, i) ==> {
                &&& r.0.indicator_pos == pos
                &&& r.0.cursor_hidden == (s.cursor_hidden || !cfg.demo)
                &&& r.0 == (EdgeCapture {
                    indicator_pos: pos,
                    cursor_hidden: r.0.cursor_hidden,
                    ..s
                })
                &&& s.cursor_hidden || cfg.demo ==> r.1 == seq![place]
                &&& !s.cursor_hidden && !cfg.demo ==> r.1 == seq![place, Effect::ShowCursor(false)]
            }
        }),
{
    law_first_display_is_found(displays, cursor);
    let r = s.showing(pos, cursor, displays, cfg);
    let place = indicator_place(pos, cursor, displays[i]);
    if cfg.indicator && is_first_with(displays, cursor, i) && !s.cursor_hidden && !cfg.demo {
        assert(r.1 =~= seq![place, Effect::ShowCursor(false)]);
    }
}

/// The indicator stands at the edge, inside the display, with its middle next to the cursor: forty
/// pixels deep and one hundred and twenty long.
pub proof fn law_indicator_stands_at_the_edge(pos: Position, cursor: Point, d: Rect)
    ensures
        indicator_place(pos, cursor, d) matches Effect::ShowIndicator { x, y, width, height } && {
            &&& pos is Left ==> x == d.left && width == 40
            &&& pos is Right ==> x + width == d.right && width == 40
            &&& pos is Left || pos is Right ==> height == 120 && y + 60 == cursor.y
            &&& pos is Top ==> y == d.top && height == 40
            &&& pos is Bottom ==> y + height == d.bottom && height == 40
            &&& pos is Top || pos is Bottom ==> width == 120 && x + 60 == cursor.x
        },
{
}

/// When the dwell timer runs out, a cursor that still touches the edge is with the client that it
/// waited for; any other wait is given up.
pub proof fn law_timer_moves_over_or_gives_up(
    s: EdgeCapture,
    p: Pending,
    cursor: Option<Point>,
    displays: Seq<Rect>,
    cfg: Settings,
)
    requires
        s.active is None,
        s.pending == Some(p),
    ensures
        ({
            let r = s.timer_ran_out(cursor, displays, cfg);
            let shown = cfg.indicator && !cfg.demo;
            let anchor = anchor_of(p.entry, displays);
            let stays = cursor matches Some(c) && touched_edge(c, displays) == Some(p.pos);
            &&& stays && s.clients.has(p.pos) ==> {
                &&& r.0.active == Some(p.pos)
                &&& r.0.pending is None
                &&& r.0.entry == p.entry
                &&& r.0.anchor == anchor
                &&& r.0.clients == s.clients
                &&& (r.0.injected - s.injected - 1) % 0x1_0000_0000 == 0
                &&& shown ==> r.1 == seq![
                    Effect::HideIndicator,
                    Effect::Begin(p.pos),
                    Effect::Warp(anchor),
                ]
                &&& !shown ==> r.1 == seq![Effect::Begin(p.pos), Effect::Warp(anchor)]
            }
            &&& !(stays && s.clients.has(p.pos)) ==> r == s.given_up(cfg)
        }),
{
    let r = s.timer_ran_out(cursor, displays, cfg);
    let anchor = anchor_of(p.entry, displays);
    let stays = cursor matches Some(c) && touched_edge(c, displays) == Some(p.pos);
    if stays && s.clients.has(p.pos) {
        if cfg.indicator && !cfg.demo {
            assert(r.1 =~= seq![
                Effect::HideIndicator,
                Effect::Begin(p.pos),
                Effect::Warp(anchor),
            ]);
        } else {
            assert(r.1 =~= seq![Effect::Begin(p.pos), Effect::Warp(anchor)]);
        }
    }
}

/// A timer that runs out while nothing is waited for, or while a client is active, does nothing but
/// end the wait.
pub proof fn law_late_timer_does_nothing(
    s: EdgeCapture,
    cursor: Option<Point>,
    displays: Seq<Rect>,
    cfg: Settings,
)
    requires
        s.pending is None || s.active is Some,
    ensures
        s.timer_ran_out(cursor, displays, cfg).0 == (EdgeCapture { pending: None, ..s }),
        s.timer_ran_out(cursor, displays, cfg).1.len() == 0,
{
}

/// While a client is active, a motion is reported to it as the distance from the anchor, to which
/// the cursor is put back; nobody else gets it.
pub proof fn law_motion_is_reported(
    s: EdgeCapture,
    pos: Position,
    pt: Point,
    mouse_data: u32,
    displays: Seq<Rect>,
    now: u64,
    cfg: Settings,
)
    requires
        s.active == Some(pos),
        s.injected == 0,
    ensures
        ({
            let r = s.mouse_hooked(0x200, pt, mouse_data, displays, now, cfg);
            let moved = Effect::Mouse(
                pos,
                MouseInput::Motion {
                    dx: (pt.x - s.anchor.x) as i64,
                    dy: (pt.y - s.anchor.y) as i64,
                },
            );
            &&& r.2 == Disposition::Swallow
            &&& pt != s.anchor ==> r.1 == seq![moved, Effect::Warp(s.anchor)] && r.0 == (
            EdgeCapture { prev: Some(pt), injected: 1, ..s })
            &&& pt == s.anchor ==> r.1 == seq![moved] && r.0 == (EdgeCapture {
                prev: Some(pt),
                ..s
            })
        }),
{
    let r = s.mouse_hooked(0x200, pt, mouse_data, displays, now, cfg);
    let moved = Effect::Mouse(
        pos,
        MouseInput::Motion { dx: (pt.x - s.anchor.x) as i64, dy: (pt.y - s.anchor.y) as i64 },
    );
    if pt != s.anchor {
        assert(r.1 =~= seq![moved, Effect::Warp(s.anchor)]);
    } else {
        assert(r.1 =~= seq![moved]);
    }
}

/// While a client is active, its buttons and its wheel are reported to it and change nothing: a
/// button with its own code, down or up, and the wheel with its turn the other way.
pub proof fn law_buttons_and_wheel_are_reported(
    s: EdgeCapture,
    pos: Position,
    msg: usize,
    pt: Point,
    mouse_data: u32,
    displays: Seq<Rect>,
    now: u64,
    cfg: Settings,
)
    requires
        s.active == Some(pos),
        msg != 0x200,
    ensures
        ({
            let r = s.mouse_hooked(msg, pt, mouse_data, displays, now, cfg);
            let high = mouse_data as int / 0x1_0000;
            let side: u32 = if high == 1 {
                0x113
            } else {
                0x114
            };
            let one = |button: u32, state: u32|
                seq![Effect::Mouse(pos, MouseInput::Button { button: button, state: state })];
            &&& r.0 == s
            &&& r.2 == Disposition::Swallow
            &&& msg == 0x201 ==> r.1 == one(0x110, 1)
            &&& msg == 0x202 ==> r.1 == one(0x110, 0)
            &&& msg == 0x204 ==> r.1 == one(0x111, 1)
            &&& msg == 0x205 ==> r.1 == one(0x111, 0)
            &&& msg == 0x207 ==> r.1 == one(0x112, 1)
            &&& msg == 0x208 ==> r.1 == one(0x112, 0)
            &&& msg == 0x20b && (high == 1 || high == 2) ==> r.1 == one(side, 1)
            &&& msg == 0x20c && (high == 1 || high == 2) ==> r.1 == one(side, 0)
            &&& msg == 0x20a ==> r.1.len() == 1 && (r.1[0] matches Effect::Mouse(to, input) && to
                == pos && (input matches MouseInput::AxisDiscrete120 { axis, value } && axis == 0
                && -0x8000 < value <= 0x8000 && (value + high) % 0x1_0000 == 0))
            &&& (msg < 0x201 || msg == 0x203 || msg == 0x206 || msg == 0x209 || msg > 0x20c)
                ==> r.1.len() == 0
            &&& (msg == 0x20b || msg == 0x20c) && high != 1 && high != 2 ==> r.1.len() == 0
        }),
{
    let r = s.mouse_hooked(msg, pt, mouse_data, displays, now, cfg);
    if r.1.len() == 1 {
        assert(r.1 =~= seq![r.1[0]]);
    }
}

/// A motion that moving the cursor has caused is left out, and leaves everything but the count of
/// such motions as it is.
pub proof fn law_own_motions_are_left_out(
    s: EdgeCapture,
    pt: Point,
    mouse_data: u32,
    displays: Seq<Rect>,
    now: u64,
    cfg: Settings,
)
    requires
        s.injected > 0,
    ensures
        ({
            let r = s.mouse_hooked(0x200, pt, mouse_data, displays, now, cfg);
            &&& r.0 == (EdgeCapture { injected: (s.injected - 1) as u32, ..s })
            &&& r.1.len() == 0
            &&& r.2 == if s.active is Some {
                Disposition::Swallow
            } else {
                Disposition::Pass
            }
        }),
{
}

/// While no client is active, the applications get every mouse message; a motion is looked at for
/// whether it leaves the displays, and nothing else is.
pub proof fn law_free_mouse_reaches_the_applications(
    s: EdgeCapture,
    msg: usize,
    pt: Point,
    mouse_data: u32,
    displays: Seq<Rect>,
    now: u64,
    cfg: Settings,
)
    requires
        s.active is None,
        s.injected == 0 || msg != 0x200,
    ensures
        ({
            let r = s.mouse_hooked(msg, pt, mouse_data, displays, now, cfg);
            &&& r.2 == Disposition::Pass
            &&& msg == 0x200 ==> (r.0, r.1) == s.moved(pt, displays, now, cfg)
            &&& msg != 0x200 ==> r.0 == s && r.1.len() == 0
        }),
{
}

/// A client that is made is there and one that goes is not; only the one that goes while it is
/// active gives the input back, and no other client is touched.
pub proof fn law_clients_come_and_go(s: EdgeCapture, pos: Position, other: Position)
    ensures
        s.requested(Request::Create(pos)).clients.has(pos),
        !s.requested(Request::Destroy(pos)).clients.has(pos),
        other != pos ==> s.requested(Request::Create(pos)).clients.has(other) == s.clients.has(
            other,
        ) && s.requested(Request::Destroy(pos)).clients.has(other) == s.clients.has(other),
        s.requested(Request::Create(pos)).active == s.active,
        s.active == Some(pos) ==> s.requested(Request::Destroy(pos)).active is None,
        s.active != Some(pos) ==> s.requested(Request::Destroy(pos)).active == s.active,
        s.requested(Request::Create(pos)) == (EdgeCapture {
            clients: s.requested(Request::Create(pos)).clients,
            ..s
        }),
        s.requested(Request::Destroy(pos)) == (EdgeCapture {
            clients: s.requested(Request::Destroy(pos)).clients,
            active: s.requested(Request::Destroy(pos)).active,
            ..s
        }),
{
    law_sides_are_kept_apart(s.clients, pos, other, true);
    law_sides_are_kept_apart(s.clients, pos, other, false);
}

/// Requests are carried out one after the other, each of them.
pub proof fn law_requests_follow_each_other(s: EdgeCapture, a: Seq<Request>, b: Seq<Request>)
    ensures
        s.requested_all(a + b) == s.requested_all(a).requested_all(b),
        a.len() == 1 ==> s.requested_all(a) == s.requested(a[0]),
        a.len() == 0 ==> s.requested_all(a) == s,
    decreases b.len(),
{
    reveal_with_fuel(EdgeCapture::requested_all, 2);
    if b.len() == 0 {
        assert(a + b =~= a);
    } else {
        assert((a + b).drop_last() =~= a + b.drop_last());
        law_requests_follow_each_other(s, a, b.drop_last());
    }
}

/// A release ends the active client's turn, remembers which side it was and when, and shows the
/// cursor where it was hidden.
pub proof fn law_release_is_remembered(s: EdgeCapture, now: u64)
    ensures
        s.released(now).0.active is None,
        !s.released(now).0.cursor_hidden,
        s.active matches Some(pos) ==> s.released(now).0.last_release == Some(
            Released { pos: pos, at: now },
        ),
        s.active is None ==> s.released(now).0.last_release == s.last_release,
        s.released(now).0 == (EdgeCapture {
            active: None,
            cursor_hidden: false,
            last_release: s.released(now).0.last_release,
            ..s
        }),
        s.cursor_hidden ==> s.released(now).1 == seq![Effect::ShowCursor(true)],
        !s.cursor_hidden ==> s.released(now).1.len() == 0,
{
}

/// The messages between threads, and those of the system, have the numbers that both sides know them
/// by; the two timers are told apart.
pub proof fn law_messages_are_numbered()
    ensures
        WM_DISPLAYCHANGE == 0x7e,
        WM_TIMER == 0x113,
        WM_PAINT == 0x0f,
        DWELL_TIMER_ID != INDICATOR_TIMER_ID,
        ThreadMessage::Request.code() == 0,
        ThreadMessage::Release.code() == 1,
        ThreadMessage::Exit.code() == 2,
{
}

/// The leftmost display is one of the displays, none lies further to the left, and those before it
/// lie further to the right.
pub proof fn law_leftmost_display(displays: Seq<Rect>) -> (i: int)
    requires
        displays.len() > 0,
    ensures
        0 <= i < displays.len(),
        leftmost(displays) == Some(displays[i]),
        forall|j: int| 0 <= j < displays.len() ==> displays[i].left <= (#[trigger] displays[j]).left,
        forall|j: int| 0 <= j < i ==> displays[i].left < (#[trigger] displays[j]).left,
    decreases displays.len(),
{
    let init = displays.drop_last();
    let n = displays.len() - 1;
    if n == 0 {
        assert(leftmost(init) is None);
        0
    } else {
        let i = law_leftmost_display(init);
        assert(init[i] == displays[i]);
        assert forall|j: int| 0 <= j < n implies displays[j] == #[trigger] init[j] by {}
        assert forall|j: int| 0 <= j < n implies displays[i].left <= (#[trigger] displays[j]).left by {
            assert(displays[j] == init[j]);
        }
        if displays[i].left <= displays[n].left {
            assert forall|j: int| 0 <= j < i implies displays[i].left
                < (#[trigger] displays[j]).left by {
                assert(displays[j] == init[j]);
            }
            i
        } else {
            n
        }
    }
}

/// A motion while a client is active changes nothing but where the cursor is known to be.
pub proof fn law_active_client_keeps_the_cursor(
    s: EdgeCapture,
    curr: Point,
    displays: Seq<Rect>,
    now: u64,
    cfg: Settings,
)
    requires
        s.active is Some,
    ensures
        s.moved(curr, displays, now, cfg).0 == (EdgeCapture { prev: Some(curr), ..s }),
        s.moved(curr, displays, now, cfg).1.len() == 0,
{
}

/// A cursor that leaves the edge that it waits at ends the wait, and then moves as if it had not
/// waited: it may come to wait at another edge at once.
pub proof fn law_leaving_an_edge_starts_over(
    s: EdgeCapture,
    p: Pending,
    curr: Point,
    displays: Seq<Rect>,
    now: u64,
    cfg: Settings,
)
    requires
        s.active is None,
        s.pending == Some(p),
        touched_edge(curr, displays) != Some(p.pos),
    ensures
        ({
            let over = EdgeCapture { pending: None, cursor_hidden: false, ..s };
            let again = over.moved(curr, displays, now, cfg);
            let r = s.moved(curr, displays, now, cfg);
            &&& r.0 == again.0
            &&& r.1 == seq![Effect::KillDwellTimer] + s.given_up(cfg).1 + again.1
        }),
{
    let over = EdgeCapture { pending: None, cursor_hidden: false, ..s };
    let again = over.moved(curr, displays, now, cfg);
    let r = s.moved(curr, displays, now, cfg);
    assert(r.1 =~= seq![Effect::KillDwellTimer] + s.given_up(cfg).1 + again.1);
}

/// With a dwell time, a cursor that touches an edge with a client, or has crossed it by the margin,
/// waits there from now on: the timer is started, and then the indicator is shown. It is to enter
/// at the nearest point of the display it came from or, where it came from none, where it is.
pub proof fn law_waits_begin(
    s: EdgeCapture,
    curr: Point,
    displays: Seq<Rect>,
    i: int,
    pos: Position,
    now: u64,
    cfg: Settings,
)
    requires
        s.active is None,
        s.pending is None,
        s.clients.has(pos),
        open_again(s, pos, now, cfg),
        cfg.dwell > 0,
        ({
            ||| touched_edge(curr, displays) == Some(pos)
            ||| s.prev matches Some(prev) && is_first_with(displays, prev, i) && left_through(
                displays,
                curr,
                pos,
            ) && pixels_beyond(displays[i], curr, pos) >= cfg.margin
        }),
    ensures
        ({
            let r = s.moved(curr, displays, now, cfg);
            &&& r.0.pending matches Some(p) && {
                let shown = (EdgeCapture { prev: Some(curr), pending: Some(p), ..s }).showing(
                    pos,
                    curr,
                    displays,
                    cfg,
                );
                &&& p.pos == pos
                &&& p.started == now
                &&& (s.prev matches Some(prev) && is_first_with(displays, prev, i)) ==> p.entry
                    == nearest_on(displays[i], curr)
                &&& s.prev is None || on_no_display(displays, s.prev->Some_0) ==> p.entry == curr
                &&& r.0 == shown.0
                &&& r.1.len() == 1 + shown.1.len()
                &&& r.1[0] matches Effect::SetDwellTimer(ms) && (cfg.dwell - ms) % 0x1_0000_0000
                    == 0
                &&& r.1.skip(1) == shown.1
            }
        }),
{
    let prev = match s.prev {
        Some(p) => p,
        None => curr,
    };
    law_first_display_is_found(displays, prev);
    law_first_display_is_found(displays, curr);
    law_left_through_the_side_beyond(prev, curr, displays);
    if let Some(r) = s.last_release {
        law_time_passes_in_nanoseconds(now, r.at, cfg.rearm);
    }
    let r = s.moved(curr, displays, now, cfg);
    if touched_edge(curr, displays) == Some(pos) {
        lemma_display_at_has(displays, curr);
        let d = display_at(displays, curr)->Some_0;
        let j = choose|j: int| 0 <= j < displays.len() && displays[j] == d;
        assert(displays[j].has(curr));
        assert(crossed_side(prev, curr, displays) is None);
    } else {
        lemma_crossing(prev, curr, displays, i, pos);
    }
    let p = r.0.pending->Some_0;
    let shown = (EdgeCapture { prev: Some(curr), pending: Some(p), ..s }).showing(
        pos,
        curr,
        displays,
        cfg,
    );
    assert(r.1.skip(1) =~= shown.1);
    assert(p.entry == EdgeCapture::entry_of(prev, curr, displays));
}

/// A cursor that has not crossed an edge with an open client by the margin and, where there is a dwell
/// time, touches no edge either, goes on as it is.
pub proof fn law_cursor_inside_goes_on(
    s: EdgeCapture,
    curr: Point,
    displays: Seq<Rect>,
    i: int,
    now: u64,
    cfg: Settings,
)
    requires
        s.active is None,
        s.pending is None,
        cfg.dwell == 0 || touched_edge(curr, displays) is None,
        s.prev matches Some(prev) ==> on_no_display(displays, prev) || (is_first_with(
            displays,
            prev,
            i,
        ) && forall|pos: Position| #[trigger]
            left_through(displays, curr, pos) ==> pixels_beyond(displays[i], curr, pos) < cfg.margin
                || !s.clients.has(pos) || !open_again(s, pos, now, cfg)),
    ensures
        s.moved(curr, displays, now, cfg).0 == (EdgeCapture { prev: Some(curr), ..s }),
        s.moved(curr, displays, now, cfg).1.len() == 0,
{
    let prev = match s.prev {
        Some(p) => p,
        None => curr,
    };
    law_first_display_is_found(displays, prev);
    law_left_through_the_side_beyond(prev, curr, displays);
    if let Some(r) = s.last_release {
        law_time_passes_in_nanoseconds(now, r.at, cfg.rearm);
    }
    if s.prev is Some && is_first_with(displays, prev, i) {
        law_overshoot_counts_pixels(prev, curr, displays, i);
        if let Some(pos) = crossed_side(prev, curr, displays) {
            assert(left_through(displays, curr, pos));
        }
    } else if s.prev is None {
        assert(crossed_side(prev, curr, displays) is None) by {
            if !on_no_display(displays, curr) {
                let j = choose|j: int|
                    0 <= j < displays.len() && !{
                        let d = #[trigger] displays[j];
                        curr.x < d.left || d.right <= curr.x || curr.y < d.top || d.bottom <= curr.y
                    };
                assert(displays[j] == displays[j]);
            }
        }
    }
}

} // verus!

//! Switching to a neighbour at a screen edge.
//!
//! The low-level input hooks report every mouse and keyboard message to an [`EdgeCapture`]. It
//! decides when the cursor has moved over to a neighbour, and answers with the effects to carry
//! out, in order. Moments are nanoseconds on a clock that never runs backwards.
use crate::capture::geometry::{
    anchor_for_entry, anchor_of, at_barrier, clamp_to_display_bounds, crossed_side,
    crossing_overshoot, display_at, entered_barrier, find_display, in_display_region, nearest_on,
    overshoot, touched_edge, Point, Rect,
};
use crate::position::Position;
use vstd::prelude::*;

verus! {

/// Nanoseconds in a millisecond.
pub const NANOS_PER_MS: u128 = 1_000_000;

/// Which sides have a neighbour.
#[derive(Clone, Copy, Debug, PartialEq, Eq, Structural)]
pub struct ClientSet {
    pub left: bool,
    pub right: bool,
    pub top: bool,
    pub bottom: bool,
}

impl ClientSet {
    /// Is there a neighbour on this side?
    pub open spec fn has(self, pos: Position) -> bool {
        match pos {
            Position::Left => self.left,
            Position::Right => self.right,
            Position::Top => self.top,
            Position::Bottom => self.bottom,
        }
    }

    /// The sides with a neighbour, once that is settled for one side.
    pub open spec fn with(self, pos: Position, present: bool) -> ClientSet {
        match pos {
            Position::Left => ClientSet { left: present, ..self },
            Position::Right => ClientSet { right: present, ..self },
            Position::Top => ClientSet { top: present, ..self },
            Position::Bottom => ClientSet { bottom: present, ..self },
        }
    }

    /// No neighbour on any side.
    pub fn new() -> (s: ClientSet)
        ensures
            forall|p: Position| !s.has(p),
    {
        ClientSet { left: false, right: false, top: false, bottom: false }
    }

    /// Is there a neighbour on this side?
    pub fn contains(&self, pos: Position) -> (b: bool)
        ensures
            b == self.has(pos),
    {
        match pos {
            Position::Left => self.left,
            Position::Right => self.right,
            Position::Top => self.top,
            Position::Bottom => self.bottom,
        }
    }

    /// Notes whether there is a neighbour on a side.
    pub fn set(&mut self, pos: Position, present: bool)
        ensures
            *final(self) == old(self).with(pos, present),
    {
        match pos {
            Position::Left => {
                self.left = present;
            },
            Position::Right => {
                self.right = present;
            },
            Position::Top => {
                self.top = present;
            },
            Position::Bottom => {
                self.bottom = present;
            },
        }
    }
}

/// A cursor that rests at an edge: the edge, where it would enter, and since when it rests there.
#[derive(Clone, Copy, Debug, PartialEq, Eq, Structural)]
pub struct Pending {
    pub pos: Position,
    pub entry: Point,
    pub started: u64,
}

/// When the last client was released, and on which side it was.
#[derive(Clone, Copy, Debug, PartialEq, Eq, Structural)]
pub struct Released {
    pub pos: Position,
    pub at: u64,
}

/// How switching is tuned.
#[derive(Clone, Copy, Debug, PartialEq, Eq, Structural)]
pub struct Settings {
    /// How long the cursor has to rest at an edge, in milliseconds; zero switches at once.
    pub dwell: u64,
    /// How many pixels a crossing has to go beyond the edge.
    pub margin: i32,
    /// How long a side stays closed after its client was released, in milliseconds; zero never
    /// closes it.
    pub rearm: u64,
    /// Is the indicator shown permanently, for demonstration?
    pub demo: bool,
    /// Does the indicator window exist?
    pub indicator: bool,
}

/// Mouse input for the active client.
#[derive(Clone, Copy, Debug, PartialEq, Eq, Structural)]
pub enum MouseInput {
    Motion { dx: i64, dy: i64 },
    Button { button: u32, state: u32 },
    AxisDiscrete120 { axis: u8, value: i32 },
}

/// What is to be done to the system, or reported.
#[derive(Clone, Copy, Debug, PartialEq, Eq, Structural)]
pub enum Effect {
    /// Stop the dwell timer.
    KillDwellTimer,
    /// Start the dwell timer, with its period in milliseconds.
    SetDwellTimer(u32),
    /// Hide the indicator window and stop its refresh timer.
    HideIndicator,
    /// Show the indicator window at a place, and start its refresh timer.
    ShowIndicator { x: i64, y: i64, width: i64, height: i64 },
    /// Show or hide the system cursor; calls to hide and to show it count against each other.
    ShowCursor(bool),
    /// Report that the cursor has moved over to a client.
    Begin(Position),
    /// Report mouse input to a client.
    Mouse(Position, MouseInput),
    /// Report a key to a client.
    Key(Position, u32, u8),
    /// Move the system cursor.
    Warp(Point),
}

/// Whether a hooked message goes on to the applications.
#[derive(Clone, Copy, Debug, PartialEq, Eq, Structural)]
pub enum Disposition {
    Pass,
    Swallow,
}

/// The state of edge capture.
#[derive(Clone, Copy, Debug, PartialEq, Eq, Structural)]
pub struct EdgeCapture {
    /// The side whose client receives the input at present.
    pub active: Option<Position>,
    /// The sides with a client.
    pub clients: ClientSet,
    /// Where the cursor left the screen.
    pub entry: Point,
    /// Where the cursor is put back to after each motion.
    pub anchor: Point,
    /// Where the cursor was at the last motion.
    pub prev: Option<Point>,
    /// A cursor resting at an edge.
    pub pending: Option<Pending>,
    /// The last release.
    pub last_release: Option<Released>,
    /// Has the system cursor been hidden?
    pub cursor_hidden: bool,
    /// The direction that the indicator shows.
    pub indicator_pos: Position,
    /// How many motions caused by moving the cursor are still to arrive.
    pub injected: u32,
    /// Are the known displays out of date?
    pub displays_stale: bool,
}

/// The time from `then` to `now`.
pub open spec fn elapsed(now: u64, then: u64) -> int {
    if now > then {
        now - then
    } else {
        0
    }
}

/// Have at least `ms` milliseconds passed since `then`?
pub open spec fn passed(now: u64, then: u64, ms: u64) -> bool {
    elapsed(now, then) >= ms * NANOS_PER_MS
}

fn has_passed(now: u64, then: u64, ms: u64) -> (b: bool)
    ensures
        b == passed(now, then, ms),
{
    let gone: u64 = if now > then {
        now - then
    } else {
        0
    };
    let wanted: u128 = ms as u128 * NANOS_PER_MS;
    gone as u128 >= wanted
}

/// The place of the indicator for a cursor on display `d`: forty by one hundred and twenty pixels
/// along the edge, centred on the cursor.
pub open spec fn indicator_place(pos: Position, cursor: Point, d: Rect) -> Effect {
    match pos {
        Position::Left => Effect::ShowIndicator {
            x: d.left as i64,
            y: (cursor.y - 60) as i64,
            width: 40,
            height: 120,
        },
        Position::Right => Effect::ShowIndicator {
            x: (d.right - 40) as i64,
            y: (cursor.y - 60) as i64,
            width: 40,
            height: 120,
        },
        Position::Top => Effect::ShowIndicator {
            x: (cursor.x - 60) as i64,
            y: d.top as i64,
            width: 120,
            height: 40,
        },
        Position::Bottom => Effect::ShowIndicator {
            x: (cursor.x - 60) as i64,
            y: (d.bottom - 40) as i64,
            width: 120,
            height: 40,
        },
    }
}

/// What hiding the indicator takes.
pub open spec fn hiding(cfg: Settings) -> Seq<Effect> {
    if cfg.indicator && !cfg.demo {
        seq![Effect::HideIndicator]
    } else {
        Seq::empty()
    }
}

impl EdgeCapture {
    /// The active client, if any, is one of the clients, and no other is waited for meanwhile.
    pub open spec fn wf(self) -> bool {
        self.active matches Some(pos) ==> self.clients.has(pos) && self.pending is None
    }

    /// The state once the cursor has moved over to the client at `pos`.
    pub open spec fn begun(self, pos: Position, entry: Point, displays: Seq<Rect>) -> EdgeCapture {
        EdgeCapture {
            active: Some(pos),
            entry: entry,
            anchor: anchor_of(entry, displays),
            injected: ((self.injected + 1) % 0x1_0000_0000) as u32,
            ..self
        }
    }

    /// The state and the effects of showing the indicator.
    pub open spec fn showing(
        self,
        pos: Position,
        cursor: Point,
        displays: Seq<Rect>,
        cfg: Settings,
    ) -> (EdgeCapture, Seq<Effect>) {
        match display_at(displays, cursor) {
            Some(d) if cfg.indicator => {
                let shown = seq![indicator_place(pos, cursor, d)];
                if cfg.demo || self.cursor_hidden {
                    (EdgeCapture { indicator_pos: pos, ..self }, shown)
                } else {
                    (
                        EdgeCapture { indicator_pos: pos, cursor_hidden: true, ..self },
                        shown.push(Effect::ShowCursor(false)),
                    )
                }
            },
            _ => (self, Seq::empty()),
        }
    }

    /// The state and the effects of giving the system cursor back.
    pub open spec fn uncovered(self) -> (EdgeCapture, Seq<Effect>) {
        if self.cursor_hidden {
            (EdgeCapture { cursor_hidden: false, ..self }, seq![Effect::ShowCursor(true)])
        } else {
            (self, Seq::empty())
        }
    }

    /// The state and the effects of giving up a wait at an edge, once its timer has stopped: the
    /// indicator goes away and the cursor comes back.
    pub open spec fn given_up(self, cfg: Settings) -> (EdgeCapture, Seq<Effect>) {
        let s = EdgeCapture { pending: None, ..self }.uncovered();
        (s.0, hiding(cfg) + s.1)
    }

    /// The state and the effects of no longer waiting at an edge.
    pub open spec fn cancelled(self, cfg: Settings) -> (EdgeCapture, Seq<Effect>) {
        if self.pending is Some {
            let s = self.given_up(cfg);
            (s.0, seq![Effect::KillDwellTimer] + s.1)
        } else {
            (self, Seq::empty())
        }
    }

    /// The side that the cursor wants to leave on: one that it has crossed by the margin or, where
    /// it has to rest at an edge, also one that it touches.
    pub open spec fn wanted_side(
        prev: Point,
        curr: Point,
        displays: Seq<Rect>,
        cfg: Settings,
    ) -> Option<Position> {
        match crossed_side(prev, curr, displays) {
            Some(p) if overshoot(prev, curr, displays, p) >= cfg.margin => Some(p),
            _ => if cfg.dwell == 0 {
                None
            } else {
                touched_edge(curr, displays)
            },
        }
    }

    /// Is the side still closed after its client was released?
    pub open spec fn cooling_down(self, pos: Position, now: u64, cfg: Settings) -> bool {
        cfg.rearm > 0 && (self.last_release matches Some(r) && r.pos == pos && !passed(
            now,
            r.at,
            cfg.rearm,
        ))
    }

    /// The point where the cursor enters: the nearest one on the display it came from, or on the
    /// display it is on where it came from outside.
    pub open spec fn entry_of(prev: Point, curr: Point, displays: Seq<Rect>) -> Point {
        let from = if display_at(displays, prev) is Some {
            prev
        } else {
            curr
        };
        nearest_on(display_at(displays, from)->Some_0, curr)
    }

    /// The state and the effects of a motion while no client is active and none is waited for.
    pub open spec fn edge_reached(
        self,
        prev: Point,
        curr: Point,
        displays: Seq<Rect>,
        now: u64,
        cfg: Settings,
    ) -> (EdgeCapture, Seq<Effect>) {
        match EdgeCapture::wanted_side(prev, curr, displays, cfg) {
            Some(pos) if self.clients.has(pos) && !self.cooling_down(pos, now, cfg) => {
                let entry = EdgeCapture::entry_of(prev, curr, displays);
                if cfg.dwell == 0 {
                    (
                        self.begun(pos, entry, displays),
                        seq![Effect::Begin(pos), Effect::Warp(anchor_of(entry, displays))],
                    )
                } else {
                    let waiting = EdgeCapture {
                        pending: Some(Pending { pos: pos, entry: entry, started: now }),
                        ..self
                    };
                    let s = waiting.showing(pos, curr, displays, cfg);
                    (s.0, seq![Effect::SetDwellTimer((cfg.dwell % 0x1_0000_0000) as u32)] + s.1)
                }
            },
            _ => (self, Seq::empty()),
        }
    }

    /// The state and the effects of entering the client that was waited for.
    pub open spec fn dwelt(self, p: Pending, displays: Seq<Rect>, cfg: Settings) -> (
        EdgeCapture,
        Seq<Effect>,
    ) {
        (
            self.begun(p.pos, p.entry, displays),
            hiding(cfg) + seq![
                Effect::Begin(p.pos),
                Effect::Warp(anchor_of(p.entry, displays)),
            ],
        )
    }

    /// The state and the effects of having waited long enough: the cursor moves over to the client
    /// that was waited for, unless that is gone.
    pub open spec fn waited(self, p: Pending, displays: Seq<Rect>, cfg: Settings) -> (
        EdgeCapture,
        Seq<Effect>,
    ) {
        if self.clients.has(p.pos) {
            let s = EdgeCapture { pending: None, ..self }.dwelt(p, displays, cfg);
            (s.0, seq![Effect::KillDwellTimer] + s.1)
        } else {
            self.cancelled(cfg)
        }
    }

    /// The state and the effects of a motion to `curr`.
    pub open spec fn moved(self, curr: Point, displays: Seq<Rect>, now: u64, cfg: Settings) -> (
        EdgeCapture,
        Seq<Effect>,
    ) {
        let prev = match self.prev {
            Some(p) => p,
            None => curr,
        };
        let here = EdgeCapture { prev: Some(curr), ..self };
        if self.active is Some {
            (here, Seq::empty())
        } else {
            match self.pending {
                Some(p) if touched_edge(curr, displays) == Some(p.pos) => {
                    if !passed(now, p.started, cfg.dwell) {
                        (here, Seq::empty())
                    } else {
                        here.waited(p, displays, cfg)
                    }
                },
                _ => {
                    let c = here.cancelled(cfg);
                    let s = c.0.edge_reached(prev, curr, displays, now, cfg);
                    (s.0, c.1 + s.1)
                },
            }
        }
    }

    /// Nothing active, nothing waited for, no clients.
    pub fn new() -> (s: EdgeCapture)
        ensures
            s.wf(),
            s.active is None,
            forall|p: Position| !s.clients.has(p),
            s.prev is None,
            s.pending is None,
            s.last_release is None,
            !s.cursor_hidden,
            s.injected == 0,
            s.displays_stale,
            s.entry == (Point { x: 0, y: 0 }),
            s.anchor == (Point { x: 0, y: 0 }),
            s.indicator_pos == Position::Left,
    {
        EdgeCapture {
            active: None,
            clients: ClientSet::new(),
            entry: Point { x: 0, y: 0 },
            anchor: Point { x: 0, y: 0 },
            prev: None,
            pending: None,
            last_release: None,
            cursor_hidden: false,
            indicator_pos: Position::Left,
            injected: 0,
            displays_stale: true,
        }
    }

    /// Moves the system cursor, and notes that the motion this causes is still to arrive.
    pub(crate) fn warp_cursor_to(&mut self, point: Point, out: &mut Vec<Effect>)
        ensures
            *final(self) == (EdgeCapture {
                injected: ((old(self).injected + 1) % 0x1_0000_0000) as u32,
                ..*old(self)
            }),
            final(out)@ == old(out)@.push(Effect::Warp(point)),
    {
        self.injected = if self.injected == u32::MAX {
            0
        } else {
            self.injected + 1
        };
        out.push(Effect::Warp(point));
    }

    /// Hides the indicator window.
    pub(crate) fn hide_indicator(&self, cfg: &Settings, out: &mut Vec<Effect>)
        ensures
            final(out)@ == old(out)@ + hiding(*cfg),
    {
        if cfg.indicator && !cfg.demo {
            out.push(Effect::HideIndicator);
        }
        assert(out@ =~= old(out)@ + hiding(*cfg));
    }

    /// Gives the system cursor back where it was hidden.
    pub(crate) fn restore_cursor(&mut self, out: &mut Vec<Effect>)
        ensures
            *final(self) == old(self).uncovered().0,
            final(out)@ == old(out)@ + old(self).uncovered().1,
    {
        if self.cursor_hidden {
            out.push(Effect::ShowCursor(true));
            self.cursor_hidden = false;
        }
        assert(out@ =~= old(out)@ + old(self).uncovered().1);
    }

    /// Shows the indicator next to the cursor and hides the system cursor, except in a
    /// demonstration.
    pub fn show_indicator(
        &mut self,
        pos: Position,
        cursor: Point,
        displays: &[Rect],
        cfg: &Settings,
        out: &mut Vec<Effect>,
    )
        ensures
            *final(self) == old(self).showing(pos, cursor, displays@, *cfg).0,
            final(out)@ == old(out)@ + old(self).showing(pos, cursor, displays@, *cfg).1,
    {
        if cfg.indicator {
            match find_display(cursor, displays) {
                None => {},
                Some(d) => {
                    let place: Effect = match pos {
                        Position::Left => Effect::ShowIndicator {
                            x: d.left as i64,
                            y: cursor.y as i64 - 60,
                            width: 40,
                            height: 120,
                        },
                        Position::Right => Effect::ShowIndicator {
                            x: d.right as i64 - 40,
                            y: cursor.y as i64 - 60,
                            width: 40,
                            height: 120,
                        },
                        Position::Top => Effect::ShowIndicator {
                            x: cursor.x as i64 - 60,
                            y: d.top as i64,
                            width: 120,
                            height: 40,
                        },
                        Position::Bottom => Effect::ShowIndicator {
                            x: cursor.x as i64 - 60,
                            y: d.bottom as i64 - 40,
                            width: 120,
                            height: 40,
                        },
                    };
                    self.indicator_pos = pos;
                    out.push(place);
                    if !cfg.demo && !self.cursor_hidden {
                        out.push(Effect::ShowCursor(false));
                        self.cursor_hidden = true;
                    }
                },
            }
        }
        assert(out@ =~= old(out)@ + old(self).showing(pos, cursor, displays@, *cfg).1);
    }

    /// Gives up a wait at an edge whose timer has stopped.
    pub(crate) fn give_up_pending(&mut self, cfg: &Settings, out: &mut Vec<Effect>)
        ensures
            *final(self) == old(self).given_up(*cfg).0,
            final(out)@ == old(out)@ + old(self).given_up(*cfg).1,
    {
        self.pending = None;
        self.hide_indicator(cfg, out);
        self.restore_cursor(out);
        assert(out@ =~= old(out)@ + old(self).given_up(*cfg).1);
    }

    /// No longer waits at an edge: the indicator goes away and the cursor comes back.
    fn cancel_pending(&mut self, cfg: &Settings, out: &mut Vec<Effect>)
        ensures
            *final(self) == old(self).cancelled(*cfg).0,
            final(out)@ == old(out)@ + old(self).cancelled(*cfg).1,
    {
        if self.pending.is_some() {
            out.push(Effect::KillDwellTimer);
            self.give_up_pending(cfg, out);
        }
        assert(out@ =~= old(out)@ + old(self).cancelled(*cfg).1);
    }

    /// Moves over to a client.
    pub(crate) fn begin(&mut self, pos: Position, entry: Point, displays: &[Rect], out: &mut Vec<Effect>)
        ensures
            *final(self) == old(self).begun(pos, entry, displays@),
            final(out)@ == old(out)@ + seq![
                Effect::Begin(pos),
                Effect::Warp(anchor_of(entry, displays@)),
            ],
    {
        self.active = Some(pos);
        self.entry = entry;
        let anchor: Point = anchor_for_entry(entry, displays);
        self.anchor = anchor;
        out.push(Effect::Begin(pos));
        self.warp_cursor_to(anchor, out);
        assert(out@ =~= old(out)@ + seq![
            Effect::Begin(pos),
            Effect::Warp(anchor_of(entry, displays@)),
        ]);
    }

    /// Ends a wait that was long enough.
    fn end_wait(&mut self, p: Pending, displays: &[Rect], cfg: &Settings, out: &mut Vec<Effect>)
        ensures
            *final(self) == old(self).waited(p, displays@, *cfg).0,
            final(out)@ == old(out)@ + old(self).waited(p, displays@, *cfg).1,
    {
        if self.clients.contains(p.pos) {
            out.push(Effect::KillDwellTimer);
            self.pending = None;
            self.hide_indicator(cfg, out);
            self.begin(p.pos, p.entry, displays, out);
            assert(out@ =~= old(out)@ + old(self).waited(p, displays@, *cfg).1);
        } else {
            self.cancel_pending(cfg, out);
        }
    }

    /// Handles a motion while no client is active and none is waited for.
    fn reach_edge(
        &mut self,
        prev: Point,
        curr: Point,
        displays: &[Rect],
        now: u64,
        cfg: &Settings,
        out: &mut Vec<Effect>,
    )
        ensures
            *final(self) == old(self).edge_reached(prev, curr, displays@, now, *cfg).0,
            final(out)@ == old(out)@ + old(self).edge_reached(prev, curr, displays@, now, *cfg).1,
    {
        let ghost before = *self;
        let ghost done = before.edge_reached(prev, curr, displays@, now, *cfg);
        let crossed: Option<Position> = match entered_barrier(prev, curr, displays) {
            Some(p) => {
                if crossing_overshoot(prev, curr, displays, p) >= cfg.margin as i64 {
                    Some(p)
                } else {
                    None
                }
            },
            None => None,
        };
        let wanted: Option<Position> = if crossed.is_some() || cfg.dwell == 0 {
            crossed
        } else {
            at_barrier(curr, displays)
        };
        assert(wanted == EdgeCapture::wanted_side(prev, curr, displays@, *cfg));
        let pos: Position = match wanted {
            Some(p) => p,
            None => {
                assert(out@ =~= old(out)@ + done.1);
                return ;
            },
        };
        if !self.clients.contains(pos) {
            assert(out@ =~= old(out)@ + done.1);
            return ;
        }
        if cfg.rearm > 0 {
            if let Some(r) = self.last_release {
                if r.pos == pos && !has_passed(now, r.at, cfg.rearm) {
                    assert(out@ =~= old(out)@ + done.1);
                    return ;
                }
            }
        }
        let from: Point = if in_display_region(prev, displays) {
            prev
        } else {
            curr
        };
        let entry: Point = clamp_to_display_bounds(from, curr, displays);
        assert(entry == EdgeCapture::entry_of(prev, curr, displays@));
        if cfg.dwell == 0 {
            self.begin(pos, entry, displays, out);
            assert(out@ =~= old(out)@ + done.1);
            return ;
        }
        self.pending = Some(Pending { pos: pos, entry: entry, started: now });
        out.push(Effect::SetDwellTimer((cfg.dwell % 0x1_0000_0000) as u32));
        self.show_indicator(pos, curr, displays, cfg, out);
        assert(out@ =~= old(out)@ + done.1);
    }

    /// Handles a motion to `curr_pos`, which may move over to a client. Says whether a client was
    /// active already, so that the motion is for it.
    pub fn check_client_activation(
        &mut self,
        curr_pos: Point,
        displays: &[Rect],
        now: u64,
        cfg: &Settings,
        out: &mut Vec<Effect>,
    ) -> (was_active: bool)
        ensures
            was_active == (old(self).active is Some),
            *final(self) == old(self).moved(curr_pos, displays@, now, *cfg).0,
            final(out)@ == old(out)@ + old(self).moved(curr_pos, displays@, now, *cfg).1,
    {
        let ghost done = (*self).moved(curr_pos, displays@, now, *cfg);
        let prev_pos: Point = match self.prev {
            Some(p) => p,
            None => curr_pos,
        };
        self.prev = Some(curr_pos);
        if self.active.is_some() {
            assert(out@ =~= old(out)@ + done.1);
            return true;
        }
        if let Some(p) = self.pending {
            let still_at: bool = match at_barrier(curr_pos, displays) {
                Some(edge) => edge == p.pos,
                None => false,
            };
            if !still_at {
                self.cancel_pending(cfg, out);
            } else {
                if has_passed(now, p.started, cfg.dwell) {
                    self.end_wait(p, displays, cfg, out);
                }
                assert(out@ =~= old(out)@ + done.1);
                return false;
            }
        }
        self.reach_edge(prev_pos, curr_pos, displays, now, cfg, out);
        assert(out@ =~= old(out)@ + done.1);
        false
    }
}

} // verus!

//! The messages that drive edge capture: from the hooks, the message window and other threads.
use crate::capture::edge::{Disposition, EdgeCapture, Effect, Pending, Released, Settings};
use crate::capture::geometry::{at_barrier, half, halved, touched_edge, Point, Rect};
use crate::capture::keys::{key_input, mouse_input, to_key_event, to_mouse_event, WM_MOUSEMOVE};
use crate::position::Position;
use vstd::prelude::*;

verus! {

/// The displays have changed.
pub const WM_DISPLAYCHANGE: u32 = 0x7e;

/// A timer has run out.
pub const WM_TIMER: u32 = 0x113;

/// The timer for a cursor that rests at an edge.
pub const DWELL_TIMER_ID: usize = 0xd05e;

/// A client comes or goes.
#[derive(Clone, Copy, Debug, PartialEq, Eq, Structural)]
pub enum Request {
    Create(Position),
    Destroy(Position),
}

/// What other threads ask of the message thread, with the number that stands for it in a message.
#[derive(Clone, Copy, Debug, PartialEq, Eq, Structural)]
pub enum ThreadMessage {
    Request,
    Release,
    Exit,
}

impl ThreadMessage {
    /// The number of this message.
    pub open spec fn code(self) -> usize {
        match self {
            ThreadMessage::Request => 0,
            ThreadMessage::Release => 1,
            ThreadMessage::Exit => 2,
        }
    }

    /// The number of this message.
    pub fn to_usize(self) -> (n: usize)
        ensures
            n == self.code(),
    {
        match self {
            ThreadMessage::Request => 0,
            ThreadMessage::Release => 1,
            ThreadMessage::Exit => 2,
        }
    }
}

impl EdgeCapture {
    /// The state, the effects and the disposition of a mouse message.
    pub open spec fn mouse_hooked(
        self,
        msg: usize,
        pt: Point,
        mouse_data: u32,
        displays: Seq<Rect>,
        now: u64,
        cfg: Settings,
    ) -> (EdgeCapture, Seq<Effect>, Disposition) {
        let shut = if self.active is Some {
            Disposition::Swallow
        } else {
            Disposition::Pass
        };
        if msg == WM_MOUSEMOVE && self.injected > 0 {
            (
                EdgeCapture { injected: (self.injected - 1) as u32, ..self },
                Seq::empty(),
                shut,
            )
        } else {
            let m = if msg == WM_MOUSEMOVE {
                self.moved(pt, displays, now, cfg)
            } else {
                (self, Seq::empty())
            };
            match (self.active, mouse_input(msg, pt, mouse_data, self.anchor)) {
                (Some(pos), Some(input)) => {
                    let reported = m.1.push(Effect::Mouse(pos, input));
                    if msg == WM_MOUSEMOVE && pt != self.anchor {
                        (
                            EdgeCapture {
                                injected: ((self.injected + 1) % 0x1_0000_0000) as u32,
                                ..m.0
                            },
                            reported.push(Effect::Warp(self.anchor)),
                            shut,
                        )
                    } else {
                        (m.0, reported, shut)
                    }
                },
                _ => (m.0, m.1, shut),
            }
        }
    }

    /// The state and the effects of the dwell timer running out, with the cursor where the system
    /// says it is: it moves over to the client that was waited for, or the wait is given up where it
    /// has left the edge or the client is gone.
    pub open spec fn timer_ran_out(
        self,
        cursor: Option<Point>,
        displays: Seq<Rect>,
        cfg: Settings,
    ) -> (EdgeCapture, Seq<Effect>) {
        match self.pending {
            None => (self, Seq::empty()),
            Some(p) => {
                let over = EdgeCapture { pending: None, ..self };
                match cursor {
                    _ if self.active is Some => (over, Seq::empty()),
                    Some(c) if touched_edge(c, displays) == Some(p.pos) && self.clients.has(p.pos)
                        => over.dwelt(p, displays, cfg),
                    _ => self.given_up(cfg),
                }
            },
        }
    }

    /// The state after one request.
    pub open spec fn requested(self, request: Request) -> EdgeCapture {
        match request {
            Request::Create(pos) => EdgeCapture { clients: self.clients.with(pos, true), ..self },
            Request::Destroy(pos) => EdgeCapture {
                clients: self.clients.with(pos, false),
                active: if self.active == Some(pos) {
                    None
                } else {
                    self.active
                },
                ..self
            },
        }
    }

    /// The state after a list of requests, in order.
    pub open spec fn requested_all(self, requests: Seq<Request>) -> EdgeCapture
        decreases requests.len(),
    {
        if requests.len() == 0 {
            self
        } else {
            self.requested_all(requests.drop_last()).requested(requests.last())
        }
    }

    /// The state and the effects of giving the input back to this machine.
    pub open spec fn released(self, now: u64) -> (EdgeCapture, Seq<Effect>) {
        let free = EdgeCapture {
            active: None,
            last_release: match self.active {
                Some(pos) => Some(Released { pos: pos, at: now }),
                None => self.last_release,
            },
            ..self
        };
        free.uncovered()
    }

    /// Handles a message of the mouse hook. The motions that moving the cursor causes are left
    /// out; what else arrives while a client is active is reported to it, and kept from the
    /// applications.
    pub fn mouse_proc(
        &mut self,
        msg: usize,
        pt: Point,
        mouse_data: u32,
        displays: &[Rect],
        now: u64,
        cfg: &Settings,
        out: &mut Vec<Effect>,
    ) -> (d: Disposition)
        ensures
            *final(self) == old(self).mouse_hooked(msg, pt, mouse_data, displays@, now, *cfg).0,
            final(out)@ == old(out)@ + old(self).mouse_hooked(
                msg,
                pt,
                mouse_data,
                displays@,
                now,
                *cfg,
            ).1,
            d == old(self).mouse_hooked(msg, pt, mouse_data, displays@, now, *cfg).2,
    {
        let ghost done = (*self).mouse_hooked(msg, pt, mouse_data, displays@, now, *cfg);
        if msg == WM_MOUSEMOVE && self.injected > 0 {
            self.injected = self.injected - 1;
            assert(out@ =~= old(out)@ + done.1);
            if self.active.is_some() {
                return Disposition::Swallow;
            }
            return Disposition::Pass;
        }
        let active: bool = if msg == WM_MOUSEMOVE {
            self.check_client_activation(pt, displays, now, cfg, out)
        } else {
            self.active.is_some()
        };
        if !active {
            assert(out@ =~= old(out)@ + done.1);
            return Disposition::Pass;
        }
        let pos: Position = match self.active {
            Some(pos) => pos,
            None => {
                return Disposition::Swallow;
            },
        };
        let anchor: Point = self.anchor;
        match to_mouse_event(msg, pt, mouse_data, anchor) {
            None => {},
            Some(input) => {
                out.push(Effect::Mouse(pos, input));
                if msg == WM_MOUSEMOVE && pt != anchor {
                    self.warp_cursor_to(anchor, out);
                }
            },
        }
        assert(out@ =~= old(out)@ + done.1);
        Disposition::Swallow
    }

    /// Handles a message of the keyboard hook: while a client is active, keys are reported to it
    /// and kept from the applications.
    pub fn kybrd_proc(
        &self,
        msg: usize,
        vk: u32,
        mapped: Option<u32>,
        out: &mut Vec<Effect>,
    ) -> (d: Disposition)
        ensures
            d == if self.active is Some {
                Disposition::Swallow
            } else {
                Disposition::Pass
            },
            final(out)@ == match (self.active, key_input(msg, vk, mapped)) {
                (Some(pos), Some(k)) => old(out)@.push(Effect::Key(pos, k.key, k.state)),
                _ => old(out)@,
            },
    {
        let client: Position = match self.active {
            Some(pos) => pos,
            None => {
                return Disposition::Pass;
            },
        };
        match to_key_event(msg, vk, mapped) {
            None => {},
            Some(k) => {
                out.push(Effect::Key(client, k.key, k.state));
            },
        }
        Disposition::Swallow
    }

    /// Moves over to the client that was waited for, where the cursor still touches the edge, and
    /// gives up the wait otherwise.
    pub fn try_activate_pending(
        &mut self,
        cursor: Option<Point>,
        displays: &[Rect],
        cfg: &Settings,
        out: &mut Vec<Effect>,
    )
        ensures
            *final(self) == old(self).timer_ran_out(cursor, displays@, *cfg).0,
            final(out)@ == old(out)@ + old(self).timer_ran_out(cursor, displays@, *cfg).1,
    {
        let ghost done = (*self).timer_ran_out(cursor, displays@, *cfg);
        let p: Pending = match self.pending {
            Some(p) => p,
            None => {
                assert(out@ =~= old(out)@ + done.1);
                return ;
            },
        };
        self.pending = None;
        if self.active.is_some() {
            assert(out@ =~= old(out)@ + done.1);
            return ;
        }
        let still_at: bool = match cursor {
            Some(c) => match at_barrier(c, displays) {
                Some(edge) => edge == p.pos,
                None => false,
            },
            None => false,
        };
        if still_at && self.clients.contains(p.pos) {
            self.hide_indicator(cfg, out);
            self.begin(p.pos, p.entry, displays, out);
        } else {
            self.give_up_pending(cfg, out);
        }
        assert(out@ =~= old(out)@ + done.1);
    }

    /// Handles a message of the message window: the displays have changed, or the dwell timer has
    /// run out.
    pub fn window_proc(
        &mut self,
        msg: u32,
        wparam: usize,
        cursor: Option<Point>,
        displays: &[Rect],
        cfg: &Settings,
        out: &mut Vec<Effect>,
    )
        ensures
            msg == WM_DISPLAYCHANGE ==> *final(self) == (EdgeCapture {
                displays_stale: true,
                ..*old(self)
            }) && final(out)@ == old(out)@,
            msg == WM_TIMER && wparam == DWELL_TIMER_ID ==> *final(self) == old(
                self,
            ).timer_ran_out(cursor, displays@, *cfg).0 && final(out)@ == old(out)@ + seq![
                Effect::KillDwellTimer,
            ] + old(self).timer_ran_out(cursor, displays@, *cfg).1,
            msg != WM_DISPLAYCHANGE && !(msg == WM_TIMER && wparam == DWELL_TIMER_ID)
                ==> *final(self) == *old(self) && final(out)@ == old(out)@,
    {
        if msg == WM_DISPLAYCHANGE {
            self.displays_stale = true;
        } else if msg == WM_TIMER && wparam == DWELL_TIMER_ID {
            out.push(Effect::KillDwellTimer);
            self.try_activate_pending(cursor, displays, cfg, out);
            assert(out@ =~= old(out)@ + seq![Effect::KillDwellTimer] + old(self).timer_ran_out(
                cursor,
                displays@,
                *cfg,
            ).1);
        }
    }

    /// Notes that the displays are known again, and says whether they had to be read.
    pub fn take_stale(&mut self) -> (stale: bool)
        ensures
            stale == old(self).displays_stale,
            *final(self) == (EdgeCapture { displays_stale: false, ..*old(self) }),
    {
        let stale: bool = self.displays_stale;
        self.displays_stale = false;
        stale
    }

    /// A client comes or goes. One that goes while it is active gives the input back.
    pub fn update_clients(&mut self, request: Request)
        ensures
            *final(self) == old(self).requested(request),
    {
        match request {
            Request::Create(pos) => {
                self.clients.set(pos, true);
            },
            Request::Destroy(pos) => {
                if let Some(active_pos) = self.active {
                    if pos == active_pos {
                        self.active = None;
                    }
                }
                self.clients.set(pos, false);
            },
        }
    }

    /// Gives the input back to this machine, and remembers which side it came back from.
    pub fn release(&mut self, now: u64, out: &mut Vec<Effect>)
        ensures
            *final(self) == old(self).released(now).0,
            final(out)@ == old(out)@ + old(self).released(now).1,
    {
        if let Some(pos) = self.active {
            self.last_release = Some(Released { pos: pos, at: now });
        }
        self.active = None;
        self.restore_cursor(out);
    }

    /// Handles a message from another thread, with the requests that wait for the message thread.
    /// Says whether the message loop is to end.
    pub fn thread_message(
        &mut self,
        wparam: usize,
        requests: &[Request],
        now: u64,
        out: &mut Vec<Effect>,
    ) -> (exit: bool)
        ensures
            exit == (wparam == ThreadMessage::Exit.code()),
            wparam == ThreadMessage::Release.code() ==> *final(self) == old(self).released(now).0
                && final(out)@ == old(out)@ + old(self).released(now).1,
            wparam == ThreadMessage::Request.code() ==> *final(self) == old(self).requested_all(
                requests@,
            ) && final(out)@ == old(out)@,
            wparam != ThreadMessage::Release.code() && wparam != ThreadMessage::Request.code()
                ==> *final(self) == *old(self) && final(out)@ == old(out)@,
    {
        if wparam == ThreadMessage::Exit.to_usize() {
            return true;
        }
        if wparam == ThreadMessage::Release.to_usize() {
            self.release(now, out);
        } else if wparam == ThreadMessage::Request.to_usize() {
            let n: usize = requests.len();
            let mut i: usize = 0;
            while i < n
                invariant
                    i <= n,
                    n == requests@.len(),
                    *self == old(self).requested_all(requests@.take(i as int)),
                    out@ == old(out)@,
                decreases n - i,
            {
                self.update_clients(requests[i]);
                i = i + 1;
                assert(requests@.take(i as int).drop_last() =~= requests@.take(i - 1));
            }
            assert(requests@.take(n as int) =~= requests@);
        }
        false
    }

    /// The leftmost display, the first one where several are: the one a demonstration shows the
    /// indicator on, halfway down its left edge.
    pub fn show_demo(&mut self, displays: &[Rect], cfg: &Settings, out: &mut Vec<Effect>)
        ensures
            match leftmost(displays@) {
                Some(d) => {
                    let middle = Point {
                        x: d.left,
                        y: half(d.top + d.bottom) as i32,
                    };
                    let s = old(self).showing(Position::Left, middle, displays@, *cfg);
                    *final(self) == s.0 && final(out)@ == old(out)@ + s.1
                },
                None => *final(self) == *old(self) && final(out)@ == old(out)@,
            },
    {
        let n: usize = displays.len();
        if n == 0 {
            return ;
        }
        let mut best: Rect = displays[0];
        let mut i: usize = 1;
        assert(displays@.take(1).drop_last() =~= Seq::<Rect>::empty());
        assert(leftmost(Seq::<Rect>::empty()) is None);
        while i < n
            invariant
                1 <= i <= n,
                n == displays@.len(),
                leftmost(displays@.take(i as int)) == Some(best),
            decreases n - i,
        {
            if displays[i].left < best.left {
                best = displays[i];
            }
            i = i + 1;
            assert(displays@.take(i as int).drop_last() =~= displays@.take(i - 1));
        }
        assert(displays@.take(n as int) =~= displays@);
        let middle: Point = Point {
            x: best.left,
            y: halved(best.top as i64 + best.bottom as i64) as i32,
        };
        self.show_indicator(Position::Left, middle, displays, cfg, out);
    }
}

/// What waiting for a message of the system has led to.
#[derive(Clone, Copy, Debug, PartialEq, Eq, Structural)]
pub enum MessageWait {
    /// The message loop is to end.
    Quit,
    /// There is a message.
    Message,
    /// Waiting has failed.
    Failed,
}

/// Reads the result of waiting for a message: zero ends the loop, and a negative one is a failure.
pub fn get_msg(ret: i32) -> (r: MessageWait)
    ensures
        r == if ret == 0 {
            MessageWait::Quit
        } else if ret > 0 {
            MessageWait::Message
        } else {
            MessageWait::Failed
        },
{
    if ret == 0 {
        MessageWait::Quit
    } else if ret > 0 {
        MessageWait::Message
    } else {
        MessageWait::Failed
    }
}

/// The display whose left edge is furthest left, the first one where several are.
pub open spec fn leftmost(displays: Seq<Rect>) -> Option<Rect>
    decreases displays.len(),
{
    if displays.len() == 0 {
        None
    } else {
        match leftmost(displays.drop_last()) {
            Some(d) if d.left <= displays.last().left => Some(d),
            _ => Some(displays.last()),
        }
    }
}

} // verus!

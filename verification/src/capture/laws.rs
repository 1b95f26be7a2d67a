//! What holds of edge capture as a whole.
use crate::capture::edge::{
    hiding, indicator_place, passed, Disposition, EdgeCapture, Effect, Pending, Settings,
};
use crate::capture::geometry::{
    anchor_of, crossed_side, display_at, law_crossing_overshoots, lemma_display_at_has,
    touched_edge, Point, Rect,
};
use crate::capture::hooks::Request;
use crate::capture::keys::{mouse_input, WM_MOUSEMOVE};
use crate::position::Position;
use vstd::prelude::*;

verus! {

/// How often the system cursor is moved.
pub open spec fn warps(fx: Seq<Effect>) -> nat
    decreases fx.len(),
{
    if fx.len() == 0 {
        0
    } else {
        warps(fx.drop_last()) + if fx.last() is Warp {
            1nat
        } else {
            0
        }
    }
}

/// Whether the system cursor is hidden after some effects, or nothing where it would be hidden or
/// shown twice in a row.
pub open spec fn hidden_after(hidden: bool, fx: Seq<Effect>) -> Option<bool>
    decreases fx.len(),
{
    if fx.len() == 0 {
        Some(hidden)
    } else {
        match (hidden_after(hidden, fx.drop_last()), fx.last()) {
            (Some(h), Effect::ShowCursor(shown)) => if h == shown {
                Some(!shown)
            } else {
                None
            },
            (h, _) => h,
        }
    }
}

proof fn lemma_warps_append(a: Seq<Effect>, b: Seq<Effect>)
    ensures
        warps(a + b) == warps(a) + warps(b),
    decreases b.len(),
{
    if b.len() == 0 {
        assert(a + b =~= a);
    } else {
        assert((a + b).drop_last() =~= a + b.drop_last());
        lemma_warps_append(a, b.drop_last());
    }
}

proof fn lemma_hidden_append(hidden: bool, a: Seq<Effect>, b: Seq<Effect>)
    ensures
        hidden_after(hidden, a + b) == match hidden_after(hidden, a) {
            Some(h) => hidden_after(h, b),
            None => None,
        },
    decreases b.len(),
{
    if b.len() == 0 {
        assert(a + b =~= a);
    } else {
        assert((a + b).drop_last() =~= a + b.drop_last());
        lemma_hidden_append(hidden, a, b.drop_last());
    }
}

proof fn lemma_one_effect(e: Effect, hidden: bool)
    ensures
        warps(seq![e]) == if e is Warp {
            1nat
        } else {
            0
        },
        hidden_after(hidden, seq![e]) == match e {
            Effect::ShowCursor(shown) => if hidden == shown {
                Some(!shown)
            } else {
                None
            },
            _ => Some(hidden),
        },
{
    assert(seq![e].drop_last() =~= Seq::<Effect>::empty());
    assert(warps(Seq::<Effect>::empty()) == 0);
    assert(hidden_after(hidden, Seq::<Effect>::empty()) == Some(hidden));
}

proof fn lemma_two_effects(e: Effect, f: Effect, hidden: bool)
    requires
        !(e is ShowCursor),
        !(f is ShowCursor),
    ensures
        hidden_after(hidden, seq![e, f]) == Some(hidden),
        warps(seq![e, f]) == warps(seq![e]) + warps(seq![f]),
{
    assert(seq![e, f] =~= seq![e] + seq![f]);
    lemma_warps_append(seq![e], seq![f]);
    lemma_one_effect(e, hidden);
    lemma_one_effect(f, hidden);
    lemma_hidden_append(hidden, seq![e], seq![f]);
}

/// The active client is one of the clients, and no other is waited for meanwhile, whatever happens.
pub proof fn law_active_is_a_client(
    s: EdgeCapture,
    msg: usize,
    pt: Point,
    mouse_data: u32,
    cursor: Option<Point>,
    request: Request,
    displays: Seq<Rect>,
    now: u64,
    cfg: Settings,
)
    requires
        s.wf(),
    ensures
        s.mouse_hooked(msg, pt, mouse_data, displays, now, cfg).0.wf(),
        s.timer_ran_out(cursor, displays, cfg).0.wf(),
        s.requested(request).wf(),
        s.released(now).0.wf(),
{
}

/// Is nothing of the mouse reported among some effects?
pub open spec fn reports_no_mouse(fx: Seq<Effect>) -> bool {
    forall|i: int| 0 <= i < fx.len() ==> !(#[trigger] fx[i] is Mouse)
}

proof fn lemma_no_mouse_append(a: Seq<Effect>, b: Seq<Effect>)
    requires
        reports_no_mouse(a),
        reports_no_mouse(b),
    ensures
        reports_no_mouse(a + b),
{
}

proof fn lemma_edge_reports_no_mouse(
    s: EdgeCapture,
    prev: Point,
    curr: Point,
    displays: Seq<Rect>,
    now: u64,
    cfg: Settings,
)
    ensures
        reports_no_mouse(s.edge_reached(prev, curr, displays, now, cfg).1),
{
    if let Some(pos) = EdgeCapture::wanted_side(prev, curr, displays, cfg) {
        let entry = EdgeCapture::entry_of(prev, curr, displays);
        let waiting = EdgeCapture {
            pending: Some(Pending { pos: pos, entry: entry, started: now }),
            ..s
        };
        let timer = Effect::SetDwellTimer((cfg.dwell % 0x1_0000_0000) as u32);
        assert(reports_no_mouse(waiting.showing(pos, curr, displays, cfg).1));
        lemma_no_mouse_append(seq![timer], waiting.showing(pos, curr, displays, cfg).1);
    }
}

proof fn lemma_cancel_reports_no_mouse(s: EdgeCapture, cfg: Settings)
    ensures
        reports_no_mouse(s.cancelled(cfg).1),
{
}

proof fn lemma_dwelt_reports_no_mouse(
    s: EdgeCapture,
    p: Pending,
    displays: Seq<Rect>,
    cfg: Settings,
)
    ensures
        reports_no_mouse(s.dwelt(p, displays, cfg).1),
        reports_no_mouse(seq![Effect::KillDwellTimer] + s.dwelt(p, displays, cfg).1),
{
}

proof fn lemma_motion_reports_no_mouse(
    s: EdgeCapture,
    curr: Point,
    displays: Seq<Rect>,
    now: u64,
    cfg: Settings,
)
    ensures
        reports_no_mouse(s.moved(curr, displays, now, cfg).1),
{
    let prev = match s.prev {
        Some(p) => p,
        None => curr,
    };
    let here = EdgeCapture { prev: Some(curr), ..s };
    let c = here.cancelled(cfg);
    let e = c.0.edge_reached(prev, curr, displays, now, cfg);
    if s.active is None {
        match s.pending {
            Some(p) if touched_edge(curr, displays) == Some(p.pos) => {
                lemma_dwelt_reports_no_mouse(
                    EdgeCapture { pending: None, ..here },
                    p,
                    displays,
                    cfg,
                );
                lemma_cancel_reports_no_mouse(here, cfg);
            },
            _ => {
                lemma_cancel_reports_no_mouse(here, cfg);
                lemma_edge_reports_no_mouse(c.0, prev, curr, displays, now, cfg);
                lemma_no_mouse_append(c.1, e.1);
                assert(s.moved(curr, displays, now, cfg).1 == c.1 + e.1);
            },
        }
    }
}

/// While no client is active every mouse message reaches the applications and none is reported;
/// while one is active, no message reaches the applications.
pub proof fn law_input_goes_to_one_side(
    s: EdgeCapture,
    msg: usize,
    pt: Point,
    mouse_data: u32,
    displays: Seq<Rect>,
    now: u64,
    cfg: Settings,
)
    ensures
        s.mouse_hooked(msg, pt, mouse_data, displays, now, cfg).2 == if s.active is Some {
            Disposition::Swallow
        } else {
            Disposition::Pass
        },
        s.active is None ==> reports_no_mouse(
            s.mouse_hooked(msg, pt, mouse_data, displays, now, cfg).1,
        ),
{
    lemma_motion_reports_no_mouse(s, pt, displays, now, cfg);
}

/// With no dwell time a motion never waits at an edge, and only ever begins or does nothing.
pub proof fn law_no_dwell_no_waiting(
    s: EdgeCapture,
    curr: Point,
    displays: Seq<Rect>,
    now: u64,
    cfg: Settings,
)
    requires
        cfg.dwell == 0,
        s.pending is None,
    ensures
        s.moved(curr, displays, now, cfg).0.pending is None,
        forall|i: int|
            0 <= i < s.moved(curr, displays, now, cfg).1.len() ==> {
                let e = #[trigger] s.moved(curr, displays, now, cfg).1[i];
                e is Begin || e is Warp
            },
{
}

/// With a dwell time a motion moves over to a client only after the cursor has rested at its edge
/// for that long.
pub proof fn law_dwell_is_kept(
    s: EdgeCapture,
    curr: Point,
    displays: Seq<Rect>,
    now: u64,
    cfg: Settings,
    pos: Position,
)
    requires
        cfg.dwell > 0,
        s.active is None,
        s.moved(curr, displays, now, cfg).0.active == Some(pos),
    ensures
        touched_edge(curr, displays) == Some(pos),
        s.pending matches Some(p) && p.pos == pos && passed(now, p.started, cfg.dwell),
{
}

/// A margin of zero lets every crossing through, and a re-arm time of zero closes no side.
pub proof fn law_default_settings_do_not_filter(
    s: EdgeCapture,
    prev: Point,
    curr: Point,
    displays: Seq<Rect>,
    now: u64,
    cfg: Settings,
    pos: Position,
)
    ensures
        cfg.margin == 0 && cfg.dwell == 0 ==> EdgeCapture::wanted_side(prev, curr, displays, cfg)
            == crossed_side(prev, curr, displays),
        cfg.rearm == 0 ==> !s.cooling_down(pos, now, cfg),
{
    if let Some(p) = crossed_side(prev, curr, displays) {
        law_crossing_overshoots(prev, curr, displays, p);
    }
}

/// A side whose client was just released is not entered again until the re-arm time has passed.
pub proof fn law_released_side_stays_closed(
    s: EdgeCapture,
    pos: Position,
    released_at: u64,
    curr: Point,
    displays: Seq<Rect>,
    now: u64,
    cfg: Settings,
)
    requires
        s.wf(),
        s.active == Some(pos),
        !passed(now, released_at, cfg.rearm),
    ensures
        s.released(released_at).0.moved(curr, displays, now, cfg).0.active != Some(pos),
        s.released(released_at).0.moved(curr, displays, now, cfg).0.pending matches Some(p)
            ==> p.pos != pos,
{
}

/// Whenever the cursor is at an edge that it is to leave through, the entry point is on a display.
pub proof fn law_entry_is_on_a_display(
    prev: Point,
    curr: Point,
    displays: Seq<Rect>,
    cfg: Settings,
)
    requires
        EdgeCapture::wanted_side(prev, curr, displays, cfg) is Some,
    ensures
        exists|d: Rect|
            displays.contains(d) && #[trigger] d.has(EdgeCapture::entry_of(prev, curr, displays)),
{
    lemma_display_at_has(displays, prev);
    lemma_display_at_has(displays, curr);
    let from = if display_at(displays, prev) is Some {
        prev
    } else {
        curr
    };
    let d = display_at(displays, from)->Some_0;
    assert(d.has(EdgeCapture::entry_of(prev, curr, displays)));
}

proof fn lemma_motion_is_balanced(
    s: EdgeCapture,
    curr: Point,
    displays: Seq<Rect>,
    now: u64,
    cfg: Settings,
)
    ensures
        hidden_after(s.cursor_hidden, s.moved(curr, displays, now, cfg).1) == Some(
            s.moved(curr, displays, now, cfg).0.cursor_hidden,
        ),
        s.moved(curr, displays, now, cfg).0.injected == (s.injected + warps(
            s.moved(curr, displays, now, cfg).1,
        )) % 0x1_0000_0000,
{
    let none = Seq::<Effect>::empty();
    assert(warps(none) == 0);
    assert forall|h: bool| #[trigger] hidden_after(h, none) == Some(h) by {}
    let prev = match s.prev {
        Some(p) => p,
        None => curr,
    };
    let here = EdgeCapture { prev: Some(curr), ..s };
    if s.active is None {
        lemma_one_effect(Effect::HideIndicator, s.cursor_hidden);
        lemma_one_effect(Effect::KillDwellTimer, s.cursor_hidden);
        match s.pending {
            Some(p) if touched_edge(curr, displays) == Some(p.pos) => {
                if passed(now, p.started, cfg.dwell) && s.clients.has(p.pos) {
                    lemma_dwelt_is_balanced(
                        EdgeCapture { pending: None, ..here },
                        p,
                        displays,
                        cfg,
                    );
                    let d = EdgeCapture { pending: None, ..here }.dwelt(p, displays, cfg);
                    lemma_warps_append(seq![Effect::KillDwellTimer], d.1);
                    lemma_hidden_append(s.cursor_hidden, seq![Effect::KillDwellTimer], d.1);
                } else {
                    lemma_cancel_is_balanced(here, cfg);
                }
            },
            _ => {
                let c = here.cancelled(cfg);
                let e = c.0.edge_reached(prev, curr, displays, now, cfg);
                lemma_cancel_is_balanced(here, cfg);
                lemma_edge_is_balanced(c.0, prev, curr, displays, now, cfg);
                lemma_warps_append(c.1, e.1);
                lemma_hidden_append(s.cursor_hidden, c.1, e.1);
            },
        }
    }
}

proof fn lemma_dwelt_is_balanced(s: EdgeCapture, p: Pending, displays: Seq<Rect>, cfg: Settings)
    ensures
        hidden_after(s.cursor_hidden, s.dwelt(p, displays, cfg).1) == Some(
            s.dwelt(p, displays, cfg).0.cursor_hidden,
        ),
        warps(s.dwelt(p, displays, cfg).1) == 1,
{
    let anchor = anchor_of(p.entry, displays);
    let hide = hiding(cfg);
    let tail = seq![Effect::Begin(p.pos), Effect::Warp(anchor)];
    assert(warps(Seq::<Effect>::empty()) == 0);
    assert(hidden_after(s.cursor_hidden, Seq::<Effect>::empty()) == Some(s.cursor_hidden));
    lemma_one_effect(Effect::HideIndicator, s.cursor_hidden);
    lemma_one_effect(Effect::Begin(p.pos), s.cursor_hidden);
    lemma_one_effect(Effect::Warp(anchor), s.cursor_hidden);
    lemma_two_effects(Effect::Begin(p.pos), Effect::Warp(anchor), s.cursor_hidden);
    lemma_warps_append(hide, tail);
    lemma_hidden_append(s.cursor_hidden, hide, tail);
}

proof fn lemma_cancel_is_balanced(s: EdgeCapture, cfg: Settings)
    ensures
        hidden_after(s.cursor_hidden, s.cancelled(cfg).1) == Some(s.cancelled(cfg).0.cursor_hidden),
        warps(s.cancelled(cfg).1) == 0,
{
    let kill = seq![Effect::KillDwellTimer];
    assert(warps(Seq::<Effect>::empty()) == 0);
    assert(hidden_after(s.cursor_hidden, Seq::<Effect>::empty()) == Some(s.cursor_hidden));
    lemma_one_effect(Effect::KillDwellTimer, s.cursor_hidden);
    lemma_giving_up_is_balanced(s, cfg);
    lemma_warps_append(kill, s.given_up(cfg).1);
    lemma_hidden_append(s.cursor_hidden, kill, s.given_up(cfg).1);
}

proof fn lemma_giving_up_is_balanced(s: EdgeCapture, cfg: Settings)
    ensures
        hidden_after(s.cursor_hidden, s.given_up(cfg).1) == Some(s.given_up(cfg).0.cursor_hidden),
        warps(s.given_up(cfg).1) == 0,
{
    let hide = hiding(cfg);
    let show = EdgeCapture { pending: None, ..s }.uncovered().1;
    assert(warps(Seq::<Effect>::empty()) == 0);
    assert(hidden_after(s.cursor_hidden, Seq::<Effect>::empty()) == Some(s.cursor_hidden));
    lemma_one_effect(Effect::HideIndicator, s.cursor_hidden);
    lemma_one_effect(Effect::ShowCursor(true), s.cursor_hidden);
    lemma_warps_append(hide, show);
    lemma_hidden_append(s.cursor_hidden, hide, show);
}

proof fn lemma_edge_is_balanced(
    s: EdgeCapture,
    prev: Point,
    curr: Point,
    displays: Seq<Rect>,
    now: u64,
    cfg: Settings,
)
    ensures
        hidden_after(s.cursor_hidden, s.edge_reached(prev, curr, displays, now, cfg).1) == Some(
            s.edge_reached(prev, curr, displays, now, cfg).0.cursor_hidden,
        ),
        s.edge_reached(prev, curr, displays, now, cfg).0.injected == (s.injected + warps(
            s.edge_reached(prev, curr, displays, now, cfg).1,
        )) % 0x1_0000_0000,
{
    assert(warps(Seq::<Effect>::empty()) == 0);
    assert(hidden_after(s.cursor_hidden, Seq::<Effect>::empty()) == Some(s.cursor_hidden));
    if let Some(pos) = EdgeCapture::wanted_side(prev, curr, displays, cfg) {
        let entry = EdgeCapture::entry_of(prev, curr, displays);
        let anchor = anchor_of(entry, displays);
        lemma_one_effect(Effect::Begin(pos), s.cursor_hidden);
        lemma_one_effect(Effect::Warp(anchor), s.cursor_hidden);
        lemma_two_effects(Effect::Begin(pos), Effect::Warp(anchor), s.cursor_hidden);
        let timer = Effect::SetDwellTimer((cfg.dwell % 0x1_0000_0000) as u32);
        lemma_one_effect(timer, s.cursor_hidden);
        let waiting = EdgeCapture {
            pending: Some(Pending { pos: pos, entry: entry, started: now }),
            ..s
        };
        let shown = waiting.showing(pos, curr, displays, cfg).1;
        if let Some(d) = display_at(displays, curr) {
            let place = indicator_place(pos, curr, d);
            lemma_one_effect(place, s.cursor_hidden);
            lemma_one_effect(Effect::ShowCursor(false), s.cursor_hidden);
            assert(seq![place].push(Effect::ShowCursor(false)) =~= seq![place] + seq![
                Effect::ShowCursor(false),
            ]);
            lemma_warps_append(seq![place], seq![Effect::ShowCursor(false)]);
            lemma_hidden_append(s.cursor_hidden, seq![place], seq![Effect::ShowCursor(false)]);
        }
        lemma_warps_append(seq![timer], shown);
        lemma_hidden_append(s.cursor_hidden, seq![timer], shown);
    }
}

/// The system cursor is never hidden twice or shown twice in a row, and what is remembered of it
/// is true after every message.
pub proof fn law_cursor_calls_alternate(
    s: EdgeCapture,
    curr: Point,
    cursor: Option<Point>,
    displays: Seq<Rect>,
    now: u64,
    cfg: Settings,
)
    ensures
        hidden_after(s.cursor_hidden, s.moved(curr, displays, now, cfg).1) == Some(
            s.moved(curr, displays, now, cfg).0.cursor_hidden,
        ),
        hidden_after(s.cursor_hidden, s.timer_ran_out(cursor, displays, cfg).1) == Some(
            s.timer_ran_out(cursor, displays, cfg).0.cursor_hidden,
        ),
        hidden_after(s.cursor_hidden, s.released(now).1) == Some(s.released(now).0.cursor_hidden),
        !s.released(now).0.cursor_hidden,
{
    lemma_motion_is_balanced(s, curr, displays, now, cfg);
    assert(hidden_after(s.cursor_hidden, Seq::<Effect>::empty()) == Some(s.cursor_hidden));
    lemma_one_effect(Effect::ShowCursor(true), s.cursor_hidden);
    if let Some(p) = s.pending {
        lemma_dwelt_is_balanced(EdgeCapture { pending: None, ..s }, p, displays, cfg);
        lemma_giving_up_is_balanced(s, cfg);
    }
}

/// A wait at an edge never leaves anything behind: whenever it ends, be it by a motion or by its
/// timer, the indicator goes away, and the cursor is back unless a client has become active.
pub proof fn law_ended_wait_leaves_nothing_behind(
    s: EdgeCapture,
    curr: Point,
    cursor: Option<Point>,
    displays: Seq<Rect>,
    now: u64,
    cfg: Settings,
)
    requires
        s.wf(),
        s.pending is Some,
    ensures
        ({
            let m = s.moved(curr, displays, now, cfg);
            m.0.pending is None ==> {
                &&& cfg.indicator && !cfg.demo ==> m.1.contains(Effect::HideIndicator)
                &&& m.0.active is None ==> !m.0.cursor_hidden
            }
        }),
        ({
            let t = s.timer_ran_out(cursor, displays, cfg);
            &&& t.0.pending is None
            &&& cfg.indicator && !cfg.demo ==> t.1.contains(Effect::HideIndicator)
            &&& t.0.active is None ==> !t.0.cursor_hidden
        }),
{
    let m = s.moved(curr, displays, now, cfg);
    let t = s.timer_ran_out(cursor, displays, cfg);
    if cfg.indicator && !cfg.demo {
        assert(hiding(cfg)[0] == Effect::HideIndicator);
        assert(t.1[0] == Effect::HideIndicator);
        if m.0.pending is None {
            assert(m.1[1] == Effect::HideIndicator);
        }
    }
}

/// Every time the system cursor is moved, one motion more is expected back; a motion that was
/// expected is left out and takes one from the count.
pub proof fn law_every_warp_is_expected_back(
    s: EdgeCapture,
    msg: usize,
    pt: Point,
    mouse_data: u32,
    displays: Seq<Rect>,
    now: u64,
    cfg: Settings,
)
    ensures
        ({
            let r = s.mouse_hooked(msg, pt, mouse_data, displays, now, cfg);
            if msg == WM_MOUSEMOVE && s.injected > 0 {
                r.1 == Seq::<Effect>::empty() && r.0.injected == s.injected - 1
            } else {
                r.0.injected == (s.injected + warps(r.1)) % 0x1_0000_0000
            }
        }),
{
    lemma_motion_is_balanced(s, pt, displays, now, cfg);
    assert(warps(Seq::<Effect>::empty()) == 0);
    let m = if msg == WM_MOUSEMOVE {
        s.moved(pt, displays, now, cfg)
    } else {
        (s, Seq::empty())
    };
    if let Some(pos) = s.active {
        if let Some(input) = mouse_input(msg, pt, mouse_data, s.anchor) {
            let one = Effect::Mouse(pos, input);
            let two = Effect::Warp(s.anchor);
            lemma_one_effect(one, s.cursor_hidden);
            lemma_one_effect(two, s.cursor_hidden);
            assert(m.1.push(one) =~= m.1 + seq![one]);
            lemma_warps_append(m.1, seq![one]);
            assert(m.1.push(one).push(two) =~= m.1.push(one) + seq![two]);
            lemma_warps_append(m.1.push(one), seq![two]);
        }
    }
}

} // verus!

//! Edge capture: geometry, switching, hooks, settings and the indicator.
use lan_mouse::capture::edge::{
    ClientSet, Disposition, EdgeCapture, Effect, MouseInput, Settings,
};
use lan_mouse::capture::geometry::{
    anchor_for_entry, at_barrier, clamp_to_display_bounds, crossing_overshoot, entered_barrier,
    enumerate_displays, find_display, in_bounds, in_display_region, is_attached,
    is_within_dp_boundary, is_within_dp_region, moved_across_boundary, DisplayDevice, Point, Rect,
};
use lan_mouse::capture::hooks::{
    get_msg, MessageWait, Request, ThreadMessage, DWELL_TIMER_ID, WM_DISPLAYCHANGE, WM_TIMER,
};
use lan_mouse::capture::indicator::{
    arrow_points, indicator_proc, indicator_window, progress_rect, IndicatorAction,
    INDICATOR_TIMER_ID, WM_PAINT,
};
use lan_mouse::capture::keys::{
    full_scan_code, to_key_event, to_mouse_event, vk_to_linux, KeyInput, BTN_BACK, BTN_FORWARD,
    BTN_LEFT, BTN_MIDDLE, BTN_RIGHT, KEY_ESC, KEY_RIGHT_ALT, VK_ESCAPE, VK_RMENU, WM_KEYDOWN,
    WM_KEYUP, WM_LBUTTONDOWN, WM_LBUTTONUP, WM_MBUTTONDOWN, WM_MBUTTONUP, WM_MOUSEMOVE,
    WM_MOUSEWHEEL, WM_RBUTTONDOWN, WM_RBUTTONUP, WM_SYSKEYDOWN, WM_SYSKEYUP, WM_XBUTTONDOWN,
    WM_XBUTTONUP,
};
use lan_mouse::capture::settings::{
    debug_motion, demo_mode, dwell_ms, enter_margin, rearm_ms, settings_from,
};
use lan_mouse::position::Position;

const MS: u64 = 1_000_000;

fn p(x: i32, y: i32) -> Point {
    Point { x, y }
}

/// Two displays side by side: 1920 by 1080 and, right of it, 1280 by 1024.
fn displays() -> Vec<Rect> {
    vec![
        Rect { left: 0, top: 0, right: 1920, bottom: 1080 },
        Rect { left: 1920, top: 0, right: 3200, bottom: 1024 },
    ]
}

fn settings() -> Settings {
    Settings { dwell: 0, margin: 0, rearm: 0, demo: false, indicator: true }
}

fn with_clients(sides: &[Position]) -> EdgeCapture {
    let mut s = EdgeCapture::new();
    for side in sides {
        s.update_clients(Request::Create(*side));
    }
    s
}

#[test]
fn points_and_displays() {
    let ds = displays();
    assert!(is_within_dp_region(p(0, 0), &ds[0]));
    assert!(is_within_dp_region(p(1919, 1079), &ds[0]));
    assert!(!is_within_dp_region(p(1920, 0), &ds[0]));
    assert!(!is_within_dp_region(p(0, 1080), &ds[0]));
    assert!(is_within_dp_boundary(p(-5, 2000), &ds[0], Position::Right));
    assert!(!is_within_dp_boundary(p(-5, 2000), &ds[0], Position::Left));
    assert_eq!(find_display(p(1920, 5), &ds), Some(ds[1]));
    assert_eq!(find_display(p(-1, 5), &ds), None);
    assert!(in_bounds(p(2000, 5), &ds, Position::Right));
    assert!(!in_bounds(p(3200, 5), &ds, Position::Right));
    assert!(in_display_region(p(3199, 1023), &ds));
    assert!(!in_display_region(p(3199, 1024), &ds));
    assert!(moved_across_boundary(p(0, 5), p(-1, 5), &ds, Position::Left));
    assert!(!moved_across_boundary(p(-1, 5), p(-2, 5), &ds, Position::Left));
}

#[test]
fn barriers_are_found() {
    let ds = displays();
    assert_eq!(entered_barrier(p(0, 5), p(-3, 5), &ds), Some(Position::Left));
    assert_eq!(entered_barrier(p(3199, 5), p(3200, 5), &ds), Some(Position::Right));
    assert_eq!(entered_barrier(p(5, 0), p(5, -1), &ds), Some(Position::Top));
    assert_eq!(entered_barrier(p(5, 1079), p(5, 1080), &ds), Some(Position::Bottom));
    assert_eq!(entered_barrier(p(1919, 5), p(1920, 5), &ds), None);
    assert_eq!(at_barrier(p(0, 0), &ds), Some(Position::Left));
    assert_eq!(at_barrier(p(1919, 500), &ds), Some(Position::Right));
    assert_eq!(at_barrier(p(100, 0), &ds), Some(Position::Top));
    assert_eq!(at_barrier(p(2000, 1023), &ds), Some(Position::Bottom));
    assert_eq!(at_barrier(p(100, 100), &ds), None);
    assert_eq!(at_barrier(p(-1, 100), &ds), None);
}

#[test]
fn overshoot_is_at_least_one_after_a_crossing() {
    let ds = displays();
    assert_eq!(crossing_overshoot(p(0, 5), p(-1, 5), &ds, Position::Left), 1);
    assert_eq!(crossing_overshoot(p(10, 5), p(-7, 5), &ds, Position::Left), 7);
    assert_eq!(crossing_overshoot(p(3199, 5), p(3200, 5), &ds, Position::Right), 1);
    assert_eq!(crossing_overshoot(p(5, 3), p(5, -2), &ds, Position::Top), 2);
    assert_eq!(crossing_overshoot(p(5, 1079), p(5, 1082), &ds, Position::Bottom), 3);
    assert_eq!(
        crossing_overshoot(p(-9, 5), p(-10, 5), &ds, Position::Left),
        i32::MAX as i64
    );
}

#[test]
fn anchors_and_clamping() {
    let ds = displays();
    assert_eq!(anchor_for_entry(p(3, 3), &ds), p(960, 540));
    assert_eq!(anchor_for_entry(p(3000, 3), &ds), p(2560, 512));
    assert_eq!(anchor_for_entry(p(-1, 3), &ds), p(-1, 3));
    let odd = vec![Rect { left: -3, top: -5, right: 0, bottom: 0 }];
    assert_eq!(anchor_for_entry(p(-1, -1), &odd), p(-1, -2));
    assert_eq!(clamp_to_display_bounds(p(5, 5), p(-20, 2000), &ds), p(0, 1079));
    assert_eq!(clamp_to_display_bounds(p(2000, 5), p(4000, -4), &ds), p(3199, 0));
}

#[test]
fn displays_are_listed_where_attached() {
    assert!(is_attached(1) && is_attached(5) && !is_attached(4));
    let devices = vec![
        DisplayDevice { attached: true, x: 0, y: 0, width: 800, height: 600 },
        DisplayDevice { attached: false, x: 9, y: 9, width: 9, height: 9 },
        DisplayDevice { attached: true, x: -1024, y: 10, width: 1024, height: 768 },
    ];
    assert_eq!(
        enumerate_displays(&devices),
        vec![
            Rect { left: 0, top: 0, right: 800, bottom: 600 },
            Rect { left: -1024, top: 10, right: 0, bottom: 778 },
        ]
    );
}

#[test]
fn client_set_is_by_side() {
    let mut c = ClientSet::new();
    assert!(!c.contains(Position::Top));
    c.set(Position::Top, true);
    assert!(c.contains(Position::Top) && !c.contains(Position::Bottom));
    c.set(Position::Top, false);
    assert!(!c.contains(Position::Top));
}

#[test]
fn crossing_switches_at_once_without_dwell() {
    let ds = displays();
    let cfg = settings();
    let mut s = with_clients(&[Position::Left]);
    let mut out = Vec::new();
    assert!(!s.check_client_activation(p(3, 400), &ds, 0, &cfg, &mut out));
    assert!(out.is_empty());
    assert!(!s.check_client_activation(p(-4, 400), &ds, 1, &cfg, &mut out));
    assert_eq!(out, vec![Effect::Begin(Position::Left), Effect::Warp(p(960, 540))]);
    assert_eq!(s.active, Some(Position::Left));
    assert_eq!(s.entry, p(0, 400));
    assert_eq!(s.anchor, p(960, 540));
    assert_eq!(s.injected, 1);
    out.clear();
    assert!(s.check_client_activation(p(900, 400), &ds, 2, &cfg, &mut out));
    assert!(out.is_empty());
}

#[test]
fn crossing_needs_a_client_and_the_margin() {
    let ds = displays();
    let mut cfg = settings();
    let mut s = with_clients(&[Position::Right]);
    let mut out = Vec::new();
    s.check_client_activation(p(3, 400), &ds, 0, &cfg, &mut out);
    s.check_client_activation(p(-4, 400), &ds, 1, &cfg, &mut out);
    assert!(out.is_empty() && s.active.is_none());
    cfg.margin = 5;
    let mut t = with_clients(&[Position::Left]);
    t.check_client_activation(p(3, 400), &ds, 0, &cfg, &mut out);
    t.check_client_activation(p(-4, 400), &ds, 1, &cfg, &mut out);
    assert!(out.is_empty() && t.active.is_none());
    t.check_client_activation(p(3, 400), &ds, 2, &cfg, &mut out);
    t.check_client_activation(p(-5, 400), &ds, 3, &cfg, &mut out);
    assert_eq!(t.active, Some(Position::Left));
}

#[test]
fn dwell_waits_at_the_edge() {
    let ds = displays();
    let mut cfg = settings();
    cfg.dwell = 300;
    let mut s = with_clients(&[Position::Left]);
    let mut out = Vec::new();
    s.check_client_activation(p(50, 400), &ds, 0, &cfg, &mut out);
    s.check_client_activation(p(0, 400), &ds, 10 * MS, &cfg, &mut out);
    assert_eq!(
        out,
        vec![
            Effect::SetDwellTimer(300),
            Effect::ShowIndicator { x: 0, y: 340, width: 40, height: 120 },
            Effect::ShowCursor(false),
        ]
    );
    assert!(s.cursor_hidden && s.active.is_none());
    out.clear();
    s.check_client_activation(p(0, 401), &ds, 309 * MS, &cfg, &mut out);
    assert!(out.is_empty());
    s.check_client_activation(p(0, 402), &ds, 310 * MS, &cfg, &mut out);
    assert_eq!(
        out,
        vec![
            Effect::KillDwellTimer,
            Effect::HideIndicator,
            Effect::Begin(Position::Left),
            Effect::Warp(p(960, 540)),
        ]
    );
    assert_eq!(s.entry, p(0, 400));
}

#[test]
fn dwell_is_cancelled_when_the_cursor_leaves() {
    let ds = displays();
    let mut cfg = settings();
    cfg.dwell = 300;
    let mut s = with_clients(&[Position::Left]);
    let mut out = Vec::new();
    s.check_client_activation(p(0, 400), &ds, 0, &cfg, &mut out);
    out.clear();
    s.check_client_activation(p(30, 400), &ds, MS, &cfg, &mut out);
    assert_eq!(
        out,
        vec![Effect::KillDwellTimer, Effect::HideIndicator, Effect::ShowCursor(true)]
    );
    assert!(s.pending.is_none() && !s.cursor_hidden);
}

#[test]
fn dwell_timer_activates_a_resting_cursor() {
    let ds = displays();
    let mut cfg = settings();
    cfg.dwell = 300;
    let mut s = with_clients(&[Position::Left]);
    let mut out = Vec::new();
    s.check_client_activation(p(0, 400), &ds, 0, &cfg, &mut out);
    let waiting = s;
    let given_up =
        vec![Effect::KillDwellTimer, Effect::HideIndicator, Effect::ShowCursor(true)];
    out.clear();
    s.window_proc(WM_TIMER, DWELL_TIMER_ID, Some(p(0, 410)), &ds, &cfg, &mut out);
    assert_eq!(
        out,
        vec![
            Effect::KillDwellTimer,
            Effect::HideIndicator,
            Effect::Begin(Position::Left),
            Effect::Warp(p(960, 540)),
        ]
    );
    for cursor in [None, Some(p(10, 410))] {
        let mut t = waiting;
        out.clear();
        t.window_proc(WM_TIMER, DWELL_TIMER_ID, cursor, &ds, &cfg, &mut out);
        assert_eq!(out, given_up);
        assert!(t.active.is_none() && t.pending.is_none() && !t.cursor_hidden);
    }
    let mut gone = waiting;
    gone.update_clients(Request::Destroy(Position::Left));
    out.clear();
    let mut moved = gone;
    gone.window_proc(WM_TIMER, DWELL_TIMER_ID, Some(p(0, 410)), &ds, &cfg, &mut out);
    assert_eq!(out, given_up);
    assert!(!gone.cursor_hidden && gone.pending.is_none());
    out.clear();
    moved.check_client_activation(p(0, 410), &ds, 300 * MS, &cfg, &mut out);
    assert_eq!(out, given_up);
    assert!(!moved.cursor_hidden && moved.pending.is_none() && moved.active.is_none());
    let mut other = waiting;
    out.clear();
    other.window_proc(WM_TIMER, 5, Some(p(0, 410)), &ds, &cfg, &mut out);
    assert!(out.is_empty() && other == waiting);
    assert!(other.take_stale());
    assert!(!other.take_stale());
    other.window_proc(WM_DISPLAYCHANGE, 0, None, &ds, &cfg, &mut out);
    assert!(other.take_stale());
}

#[test]
fn released_side_stays_closed_for_a_while() {
    let ds = displays();
    let mut cfg = settings();
    cfg.rearm = 500;
    let mut s = with_clients(&[Position::Left, Position::Top]);
    let mut out = Vec::new();
    s.check_client_activation(p(1, 400), &ds, 0, &cfg, &mut out);
    s.check_client_activation(p(-1, 400), &ds, 0, &cfg, &mut out);
    s.release(1000 * MS, &mut out);
    assert!(s.active.is_none());
    out.clear();
    s.check_client_activation(p(1, 400), &ds, 1100 * MS, &cfg, &mut out);
    s.check_client_activation(p(-1, 400), &ds, 1499 * MS, &cfg, &mut out);
    assert!(out.is_empty() && s.active.is_none());
    let mut up = s;
    up.check_client_activation(p(5, 0), &ds, 1499 * MS, &cfg, &mut out);
    up.check_client_activation(p(5, -1), &ds, 1499 * MS, &cfg, &mut out);
    assert_eq!(up.active, Some(Position::Top));
    s.check_client_activation(p(1, 400), &ds, 1499 * MS, &cfg, &mut out);
    s.check_client_activation(p(-1, 400), &ds, 1500 * MS, &cfg, &mut out);
    assert_eq!(s.active, Some(Position::Left));
}

#[test]
fn mouse_hook_reports_and_swallows_while_active() {
    let ds = displays();
    let cfg = settings();
    let mut s = with_clients(&[Position::Left]);
    let mut out = Vec::new();
    assert_eq!(
        s.mouse_proc(WM_LBUTTONDOWN, p(5, 5), 0, &ds, 0, &cfg, &mut out),
        Disposition::Pass
    );
    s.mouse_proc(WM_MOUSEMOVE, p(1, 400), 0, &ds, 0, &cfg, &mut out);
    assert_eq!(
        s.mouse_proc(WM_MOUSEMOVE, p(-1, 400), 0, &ds, 0, &cfg, &mut out),
        Disposition::Pass
    );
    assert_eq!(s.injected, 1);
    out.clear();
    assert_eq!(
        s.mouse_proc(WM_MOUSEMOVE, p(960, 540), 0, &ds, 0, &cfg, &mut out),
        Disposition::Swallow
    );
    assert!(out.is_empty() && s.injected == 0);
    assert_eq!(
        s.mouse_proc(WM_MOUSEMOVE, p(963, 538), 0, &ds, 0, &cfg, &mut out),
        Disposition::Swallow
    );
    assert_eq!(
        out,
        vec![
            Effect::Mouse(Position::Left, MouseInput::Motion { dx: 3, dy: -2 }),
            Effect::Warp(p(960, 540)),
        ]
    );
    out.clear();
    s.mouse_proc(WM_MOUSEMOVE, p(960, 540), 0, &ds, 0, &cfg, &mut out);
    s.mouse_proc(WM_RBUTTONUP, p(960, 540), 0, &ds, 0, &cfg, &mut out);
    assert_eq!(
        out,
        vec![Effect::Mouse(
            Position::Left,
            MouseInput::Button { button: BTN_RIGHT, state: 0 }
        )]
    );
    out.clear();
    assert_eq!(
        s.mouse_proc(0x999, p(0, 0), 0, &ds, 0, &cfg, &mut out),
        Disposition::Swallow
    );
    assert!(out.is_empty());
}

#[test]
fn keyboard_hook_reports_and_swallows_while_active() {
    let mut s = with_clients(&[Position::Right]);
    let mut out = Vec::new();
    assert_eq!(s.kybrd_proc(WM_KEYDOWN, 0x41, Some(30), &mut out), Disposition::Pass);
    assert!(out.is_empty());
    s.active = Some(Position::Right);
    assert_eq!(s.kybrd_proc(WM_KEYDOWN, 0x41, Some(30), &mut out), Disposition::Swallow);
    assert_eq!(s.kybrd_proc(WM_SYSKEYUP, 0xa5, None, &mut out), Disposition::Swallow);
    assert_eq!(s.kybrd_proc(WM_KEYDOWN, 0x41, None, &mut out), Disposition::Swallow);
    assert_eq!(
        out,
        vec![
            Effect::Key(Position::Right, 30, 1),
            Effect::Key(Position::Right, KEY_RIGHT_ALT, 0),
        ]
    );
}

#[test]
fn mouse_messages_are_translated() {
    let at = p(10, 20);
    let anchor = p(4, 25);
    let button = |b: u32, state: u32| Some(MouseInput::Button { button: b, state });
    assert_eq!(to_mouse_event(WM_LBUTTONDOWN, at, 0, anchor), button(BTN_LEFT, 1));
    assert_eq!(to_mouse_event(WM_LBUTTONUP, at, 0, anchor), button(BTN_LEFT, 0));
    assert_eq!(to_mouse_event(WM_MBUTTONDOWN, at, 0, anchor), button(BTN_MIDDLE, 1));
    assert_eq!(to_mouse_event(WM_MBUTTONUP, at, 0, anchor), button(BTN_MIDDLE, 0));
    assert_eq!(to_mouse_event(WM_RBUTTONDOWN, at, 0, anchor), button(BTN_RIGHT, 1));
    assert_eq!(
        to_mouse_event(WM_MOUSEMOVE, at, 0, anchor),
        Some(MouseInput::Motion { dx: 6, dy: -5 })
    );
    assert_eq!(
        to_mouse_event(WM_MOUSEMOVE, p(i32::MAX, i32::MIN), 0, p(-1, 1)),
        Some(MouseInput::Motion { dx: 2147483648, dy: -2147483649 })
    );
    assert_eq!(
        to_mouse_event(WM_MOUSEWHEEL, at, 120 << 16, anchor),
        Some(MouseInput::AxisDiscrete120 { axis: 0, value: -120 })
    );
    assert_eq!(
        to_mouse_event(WM_MOUSEWHEEL, at, 0xff88_0000, anchor),
        Some(MouseInput::AxisDiscrete120 { axis: 0, value: 120 })
    );
    assert_eq!(to_mouse_event(WM_XBUTTONDOWN, at, 1 << 16, anchor), button(BTN_BACK, 1));
    assert_eq!(to_mouse_event(WM_XBUTTONUP, at, 2 << 16, anchor), button(BTN_FORWARD, 0));
    assert_eq!(to_mouse_event(WM_XBUTTONUP, at, 3 << 16, anchor), None);
    assert_eq!(to_mouse_event(0x20e, at, 0, anchor), None);
}

#[test]
fn keys_are_translated() {
    assert_eq!(to_key_event(WM_KEYDOWN, 0x41, Some(30)), Some(KeyInput { key: 30, state: 1 }));
    assert_eq!(to_key_event(WM_KEYUP, 0x41, Some(30)), Some(KeyInput { key: 30, state: 0 }));
    assert_eq!(
        to_key_event(WM_SYSKEYDOWN, 0xa4, None),
        Some(KeyInput { key: 56, state: 1 })
    );
    assert_eq!(
        to_key_event(WM_SYSKEYUP, 0x0001_00a4, None),
        Some(KeyInput { key: 56, state: 0 })
    );
    assert_eq!(to_key_event(0x102, 0x41, Some(30)), None);
    assert_eq!(to_key_event(WM_KEYDOWN, 0x41, None), None);
    let modifiers = [
        (0xa4, 56),
        (0xa5, 100),
        (0xa2, 29),
        (0xa3, 97),
        (0xa0, 42),
        (0xa1, 54),
        (0x5b, 125),
        (0x5c, 126),
        (0x14, 58),
        (0x1b, 1),
    ];
    for (vk, key) in modifiers {
        assert_eq!(vk_to_linux(vk), Some(key));
    }
    assert_eq!(vk_to_linux(VK_RMENU), Some(KEY_RIGHT_ALT));
    assert_eq!(vk_to_linux(VK_ESCAPE), Some(KEY_ESC));
    assert_eq!(vk_to_linux(0x41), None);
    assert_eq!(full_scan_code(0x1d, true), 0xe01d);
    assert_eq!(full_scan_code(0x1d, false), 0x1d);
}

#[test]
fn thread_messages_drive_the_clients() {
    let mut s = EdgeCapture::new();
    let mut out = Vec::new();
    let requests = [
        Request::Create(Position::Left),
        Request::Create(Position::Top),
        Request::Destroy(Position::Left),
    ];
    assert!(!s.thread_message(ThreadMessage::Request.to_usize(), &requests, 0, &mut out));
    assert!(s.clients.contains(Position::Top) && !s.clients.contains(Position::Left));
    s.active = Some(Position::Top);
    s.cursor_hidden = true;
    assert!(!s.thread_message(ThreadMessage::Release.to_usize(), &[], 7, &mut out));
    assert!(s.active.is_none() && !s.cursor_hidden);
    assert_eq!(s.last_release.map(|r| (r.pos, r.at)), Some((Position::Top, 7)));
    assert_eq!(out, vec![Effect::ShowCursor(true)]);
    let before = s;
    assert!(!s.thread_message(17, &requests, 0, &mut out));
    assert!(s.thread_message(ThreadMessage::Exit.to_usize(), &requests, 0, &mut out));
    assert_eq!(s, before);
    s.active = Some(Position::Top);
    s.update_clients(Request::Destroy(Position::Top));
    assert!(s.active.is_none());
}

#[test]
fn waiting_for_messages() {
    assert_eq!(get_msg(0), MessageWait::Quit);
    assert_eq!(get_msg(1), MessageWait::Message);
    assert_eq!(get_msg(-1), MessageWait::Failed);
}

#[test]
fn demo_shows_the_indicator_on_the_leftmost_display() {
    let ds = vec![
        Rect { left: 0, top: 0, right: 100, bottom: 100 },
        Rect { left: -200, top: 10, right: 0, bottom: 210 },
        Rect { left: -200, top: 400, right: 0, bottom: 500 },
    ];
    let mut cfg = settings();
    cfg.demo = true;
    let mut s = EdgeCapture::new();
    let mut out = Vec::new();
    s.show_demo(&ds, &cfg, &mut out);
    assert_eq!(
        out,
        vec![Effect::ShowIndicator { x: -200, y: 50, width: 40, height: 120 }]
    );
    assert!(!s.cursor_hidden);
    out.clear();
    s.show_demo(&[], &cfg, &mut out);
    assert!(out.is_empty());
}

#[test]
fn indicator_is_placed_at_each_edge() {
    let ds = displays();
    let cfg = settings();
    let places = [
        (Position::Left, p(0, 400), (0, 340, 40, 120)),
        (Position::Right, p(1919, 400), (1880, 340, 40, 120)),
        (Position::Top, p(500, 0), (440, 0, 120, 40)),
        (Position::Bottom, p(500, 1079), (440, 1040, 120, 40)),
    ];
    for (pos, cursor, (x, y, width, height)) in places {
        let mut s = EdgeCapture::new();
        let mut out = Vec::new();
        s.show_indicator(pos, cursor, &ds, &cfg, &mut out);
        assert_eq!(
            out,
            vec![
                Effect::ShowIndicator { x, y, width, height },
                Effect::ShowCursor(false),
            ]
        );
        assert_eq!(s.indicator_pos, pos);
        out.clear();
        s.show_indicator(pos, cursor, &ds, &cfg, &mut out);
        assert_eq!(out, vec![Effect::ShowIndicator { x, y, width, height }]);
    }
    let mut none = cfg;
    none.indicator = false;
    let mut s = EdgeCapture::new();
    let mut out = Vec::new();
    s.show_indicator(Position::Left, p(0, 0), &ds, &none, &mut out);
    s.show_indicator(Position::Left, p(-1, 0), &ds, &cfg, &mut out);
    assert!(out.is_empty());
}

#[test]
fn indicator_shapes() {
    assert_eq!(arrow_points(Position::Left, 40, 120), (p(36, 4), p(4, 60), p(36, 116)));
    assert_eq!(arrow_points(Position::Right, 40, 120), (p(4, 4), p(36, 60), p(4, 116)));
    assert_eq!(arrow_points(Position::Top, 120, 40), (p(4, 36), p(60, 4), p(116, 36)));
    assert_eq!(arrow_points(Position::Bottom, 120, 40), (p(4, 4), p(60, 36), p(116, 4)));
    let r = |left: i32, top: i32, right: i32, bottom: i32| Rect { left, top, right, bottom };
    assert_eq!(progress_rect(Position::Left, 40, 120, 10), r(0, 0, 10, 120));
    assert_eq!(progress_rect(Position::Right, 40, 120, 10), r(30, 0, 40, 120));
    assert_eq!(progress_rect(Position::Top, 120, 40, 10), r(0, 0, 120, 10));
    assert_eq!(progress_rect(Position::Bottom, 120, 40, 10), r(0, 30, 120, 40));
    assert_eq!(indicator_proc(WM_PAINT, 0), IndicatorAction::Paint);
    assert_eq!(indicator_proc(WM_TIMER, INDICATOR_TIMER_ID), IndicatorAction::Refresh);
    assert_eq!(indicator_proc(WM_TIMER, 1), IndicatorAction::Default);
    assert_eq!(indicator_proc(5, 0), IndicatorAction::Default);
    assert!(!indicator_window(true).layered && indicator_window(false).layered);
    assert_eq!(indicator_window(true).background, 0x0000_00ff);
    assert_eq!(indicator_window(false).background, 0x00ff_00ff);
}

#[test]
fn settings_come_from_text() {
    assert_eq!(dwell_ms(None), 0);
    assert_eq!(dwell_ms(Some("300")), 300);
    assert_eq!(dwell_ms(Some("+300")), 300);
    assert_eq!(dwell_ms(Some("-300")), 0);
    assert_eq!(dwell_ms(Some("300 ")), 0);
    assert_eq!(dwell_ms(Some("")), 0);
    assert_eq!(dwell_ms(Some("+")), 0);
    assert_eq!(rearm_ms(Some("18446744073709551615")), u64::MAX);
    assert_eq!(rearm_ms(Some("18446744073709551616")), 0);
    assert_eq!(enter_margin(Some("7")), 7);
    assert_eq!(enter_margin(Some("-7")), 0);
    assert_eq!(enter_margin(Some("2147483647")), i32::MAX);
    assert_eq!(enter_margin(Some("2147483648")), 0);
    assert_eq!(enter_margin(Some("-2147483648")), 0);
    assert_eq!(enter_margin(Some("x")), 0);
    assert!(demo_mode(Some("1")) && demo_mode(Some("TrUe")) && debug_motion(Some("true")));
    assert!(!demo_mode(Some("0")) && !demo_mode(Some("yes")) && !demo_mode(None));
    assert_eq!(
        settings_from(Some("250"), Some("3"), None, Some("1"), true),
        Settings { dwell: 250, margin: 3, rearm: 0, demo: true, indicator: true }
    );
}

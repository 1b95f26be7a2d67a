//! Settings read from environment variables. A variable that is missing or malformed counts as
//! its default.
use crate::capture::edge::Settings;
use crate::text::{
    ascii_lower, chars_of, decimal, eq_ignore_ascii_case, i32_value, law_signed_numbers_are_read,
    law_unsigned_numbers_are_read, parse_i32, parse_u64, same_ignoring_ascii_case, unsigned_value,
};
use vstd::prelude::*;

verus! {

/// A time in milliseconds, zero by default.
pub open spec fn milliseconds(var: Option<&str>) -> u64 {
    match var {
        Some(s) => match unsigned_value(s@, u64::MAX as nat) {
            Some(n) => n as u64,
            None => 0,
        },
        None => 0,
    }
}

/// A number of pixels, zero by default and where it is negative.
pub open spec fn pixels(var: Option<&str>) -> i32 {
    match var {
        Some(s) => match i32_value(s@) {
            Some(n) if n > 0 => n,
            _ => 0,
        },
        None => 0,
    }
}

/// A switch: on where the variable is `1` or, in any case of letters, `true`.
pub open spec fn switched_on(var: Option<&str>) -> bool {
    match var {
        Some(s) => s@ == "1"@ || same_ignoring_ascii_case(s@, "true"@),
        None => false,
    }
}

fn time_setting(var: Option<&str>) -> (ms: u64)
    ensures
        ms == milliseconds(var),
{
    match var {
        Some(s) => match parse_u64(s) {
            Some(n) => n,
            None => 0,
        },
        None => 0,
    }
}

/// How long the cursor has to rest at an edge, from `LAN_MOUSE_DWELL_MS`.
pub fn dwell_ms(var: Option<&str>) -> (ms: u64)
    ensures
        ms == milliseconds(var),
{
    time_setting(var)
}

/// How long a side stays closed after a release, from `LAN_MOUSE_REARM_MS`.
pub fn rearm_ms(var: Option<&str>) -> (ms: u64)
    ensures
        ms == milliseconds(var),
{
    time_setting(var)
}

/// How far a crossing has to go beyond the edge, from `LAN_MOUSE_ENTER_MARGIN`.
pub fn enter_margin(var: Option<&str>) -> (px: i32)
    ensures
        px == pixels(var),
{
    match var {
        Some(s) => match parse_i32(s) {
            Some(n) => if n > 0 {
                n
            } else {
                0
            },
            None => 0,
        },
        None => 0,
    }
}

fn switch_setting(var: Option<&str>) -> (on: bool)
    ensures
        on == switched_on(var),
{
    match var {
        Some(s) => {
            let chars: Vec<char> = chars_of(s);
            let one: bool = chars.len() == 1 && chars[0] == '1';
            proof {
                reveal_strlit("1");
                assert(one == (s@ =~= "1"@));
            }
            one || eq_ignore_ascii_case(chars.as_slice(), chars_of("true").as_slice())
        },
        None => false,
    }
}

/// Is the indicator shown permanently, from `LAN_MOUSE_INDICATOR_DEMO`?
pub fn demo_mode(var: Option<&str>) -> (on: bool)
    ensures
        on == switched_on(var),
{
    switch_setting(var)
}

/// Is every motion logged, from `LAN_MOUSE_DEBUG_MOTION`?
pub fn debug_motion(var: Option<&str>) -> (on: bool)
    ensures
        on == switched_on(var),
{
    switch_setting(var)
}

/// The settings that the environment gives, for an indicator window that exists or does not.
pub fn settings_from(
    dwell: Option<&str>,
    margin: Option<&str>,
    rearm: Option<&str>,
    demo: Option<&str>,
    indicator: bool,
) -> (cfg: Settings)
    ensures
        cfg == (Settings {
            dwell: milliseconds(dwell),
            margin: pixels(margin),
            rearm: milliseconds(rearm),
            demo: switched_on(demo),
            indicator: indicator,
        }),
{
    Settings {
        dwell: dwell_ms(dwell),
        margin: enter_margin(margin),
        rearm: rearm_ms(rearm),
        demo: demo_mode(demo),
        indicator: indicator,
    }
}

/// A time is the number that the variable holds, and zero where it holds none that fits.
pub proof fn law_times_are_read(s: &str, n: nat)
    ensures
        s@ == decimal(n) && n <= u64::MAX ==> milliseconds(Some(s)) == n,
        s@ == decimal(n) && n > u64::MAX ==> milliseconds(Some(s)) == 0,
        unsigned_value(s@, u64::MAX as nat) is None ==> milliseconds(Some(s)) == 0,
        milliseconds(None) == 0,
{
    law_unsigned_numbers_are_read(n, u64::MAX as nat);
}

/// A number of pixels is the one that the variable holds, and zero where it is negative or none.
pub proof fn law_pixels_are_read(s: &str, n: nat)
    ensures
        s@ == decimal(n) && n <= i32::MAX ==> pixels(Some(s)) == n,
        s@ == decimal(n) && n > i32::MAX ==> pixels(Some(s)) == 0,
        s@ == seq!['-'] + decimal(n) ==> pixels(Some(s)) == 0,
        i32_value(s@) is None ==> pixels(Some(s)) == 0,
        pixels(None) == 0,
{
    law_signed_numbers_are_read(n);
}

/// A switch is on for `1` and for `true` in letters of either size, and for nothing else.
pub proof fn law_switches_are_read(s: &str)
    ensures
        switched_on(Some(s)) <==> {
            ||| s@.len() == 1 && s@[0] == '1'
            ||| s@.len() == 4 && (s@[0] == 't' || s@[0] == 'T') && (s@[1] == 'r' || s@[1] == 'R')
                && (s@[2] == 'u' || s@[2] == 'U') && (s@[3] == 'e' || s@[3] == 'E')
        },
        !switched_on(None),
{
    reveal_strlit("1");
    reveal_strlit("true");
    let t = "true"@;
    assert(s@ == "1"@ <==> s@ =~= "1"@);
    if same_ignoring_ascii_case(s@, t) {
        assert(ascii_lower(s@[0]) == ascii_lower(t[0]));
        assert(ascii_lower(s@[1]) == ascii_lower(t[1]));
        assert(ascii_lower(s@[2]) == ascii_lower(t[2]));
        assert(ascii_lower(s@[3]) == ascii_lower(t[3]));
    }
}

} // verus!

//! Hardware levels: DDC/CI's raw values against percentages, the darkness of a dimming overlay,
//! and how long a DDC/CI reading is trusted after the monitor stops answering.

use vstd::prelude::*;

use crate::model::PowerOffMethod;

verus! {

/// The overlay is at most this opaque, out of 255, so a fully dimmed screen stays readable.
pub const MAX_OVERLAY_ALPHA: u32 = 235;

/// DDC/CI through Apple silicon's display controller often fails for a moment after wake: a
/// reading is kept for this many failed refreshes.
pub const DDC_GRACE_REFRESHES: u8 = 2;

/// A raw DDC/CI value as a percentage of the monitor's maximum, rounded half up.
pub open spec fn spec_ddc_percent(current: u32, max: u32) -> int {
    let c = if current <= max {
        current as int
    } else {
        max as int
    };
    (c * 100 + max / 2) / (max as int)
}

/// A percentage as a raw DDC/CI value of the monitor's maximum, rounded half up.
pub open spec fn spec_raw_level(percent: u8, max: u32) -> int {
    let p = if percent <= 100 {
        percent as int
    } else {
        100
    };
    (p * max + 50) / 100
}

pub fn ddc_percent(current: u32, max: u32) -> (r: u8)
    requires
        max > 0,
    ensures
        r == spec_ddc_percent(current, max),
        r <= 100,
{
    let c: u64 = if current <= max {
        current as u64
    } else {
        max as u64
    };
    let m = max as u64;
    assert(c * 100 + m / 2 <= m * 100 + m) by (nonlinear_arith)
        requires
            c <= m,
    ;
    assert((c * 100 + m / 2) / (m as int) <= 100) by (nonlinear_arith)
        requires
            c <= m,
            m > 0,
    ;
    ((c * 100 + m / 2) / m) as u8
}

pub fn raw_level(percent: u8, max: u32) -> (r: u32)
    ensures
        r == spec_raw_level(percent, max),
        r <= max,
{
    let p: u64 = if percent <= 100 {
        percent as u64
    } else {
        100
    };
    let m = max as u64;
    assert((p * m + 50) / 100 <= m) by (nonlinear_arith)
        requires
            p <= 100,
    ;
    assert(p * m + 50 <= 100 * 4294967295 + 50) by (nonlinear_arith)
        requires
            p <= 100,
            m <= 4294967295,
    ;
    ((p * m + 50) / 100) as u32
}

/// A percentage written as a raw value and read back is the same percentage, on every monitor
/// whose maximum has at least one step per percent.
pub proof fn law_raw_round_trip(percent: u8, max: u32)
    requires
        percent <= 100,
        max >= 100,
    ensures
        spec_ddc_percent(spec_raw_level(percent, max) as u32, max) == percent,
{
    let p = percent as int;
    let m = max as int;
    let raw = (p * m + 50) / 100;
    assert(raw <= m) by (nonlinear_arith)
        requires
            0 <= p <= 100,
            m >= 100,
            raw == (p * m + 50) / 100,
    ;
    // raw * 100 lies within 50 of p * m, which is within half a step of p
    assert(p * m - 50 < raw * 100 <= p * m + 50) by (nonlinear_arith)
        requires
            raw == (p * m + 50) / 100,
    ;
    assert((raw * 100 + m / 2) / m == p) by (nonlinear_arith)
        requires
            p * m - 50 < raw * 100 <= p * m + 50,
            m >= 100,
            0 <= p,
    ;
}

/// How opaque the dimming overlay is for a level; none at all from 100 on, where the overlay
/// goes away.
pub open spec fn spec_overlay_alpha(level: u8) -> Option<u8> {
    if level >= 100 {
        None
    } else {
        Some(((100 - level) * MAX_OVERLAY_ALPHA / 100) as u8)
    }
}

pub fn overlay_alpha(level: u8) -> (r: Option<u8>)
    ensures
        r == spec_overlay_alpha(level),
        r matches Some(a) ==> a <= MAX_OVERLAY_ALPHA,
{
    if level >= 100 {
        return None;
    }
    let dark: u32 = (100 - level) as u32;
    Some((dark * MAX_OVERLAY_ALPHA / 100) as u8)
}

/// A DDC/CI brightness reading: the percentage, the monitor's maximum, and how many refreshes
/// in a row the monitor did not answer since.
#[derive(Clone, Copy, Debug, PartialEq, Eq)]
pub struct DdcReading {
    pub percent: u8,
    pub max: u16,
    pub failures: u8,
}

/// What a refresh makes of a monitor's DDC/CI: the reading to keep, and the control to use as
/// (percent, max). A failed read keeps the last reading for a few refreshes, since the
/// display controller often fails for a moment after wake.
pub open spec fn spec_ddc_refresh(previous: Option<DdcReading>, read: Option<(u16, u16)>) -> (
    Option<DdcReading>,
    Option<(u8, u16)>,
) {
    match read {
        Some((current, max)) => {
            let percent = spec_ddc_percent(current as u32, max as u32) as u8;
            (Some(DdcReading { percent, max, failures: 0 }), Some((percent, max)))
        },
        None => match previous {
            Some(r) => if r.failures < DDC_GRACE_REFRESHES {
                (Some(DdcReading { failures: (r.failures + 1) as u8, ..r }), Some((r.percent, r.max)))
            } else {
                (None, None)
            },
            None => (None, None),
        },
    }
}

pub fn ddc_refresh(previous: Option<DdcReading>, read: Option<(u16, u16)>) -> (r: (
    Option<DdcReading>,
    Option<(u8, u16)>,
))
    requires
        read matches Some((c, m)) ==> m > 0,
    ensures
        r == spec_ddc_refresh(previous, read),
{
    match read {
        Some((current, max)) => {
            let percent = ddc_percent(current as u32, max as u32);
            (Some(DdcReading { percent, max, failures: 0 }), Some((percent, max)))
        },
        None => match previous {
            Some(r) => if r.failures < DDC_GRACE_REFRESHES {
                (Some(DdcReading { failures: r.failures + 1, ..r }), Some((r.percent, r.max)))
            } else {
                (None, None)
            },
            None => (None, None),
        },
    }
}

/// A monitor that stops answering keeps its last level for a bounded number of refreshes, and
/// then has no DDC/CI control: the number of failures never passes the grace.
pub proof fn law_ddc_grace_is_bounded(previous: Option<DdcReading>, read: Option<(u16, u16)>)
    requires
        previous matches Some(r) ==> r.failures <= DDC_GRACE_REFRESHES,
    ensures
        spec_ddc_refresh(previous, read).0 matches Some(r) ==> r.failures <= DDC_GRACE_REFRESHES,
        read is None ==> (previous matches Some(r) && r.failures == DDC_GRACE_REFRESHES
            ==> spec_ddc_refresh(previous, read).1 is None),
{
}

/// A DDC/CI call that fails for a passing reason is tried this often in all.
pub const DDC_ATTEMPTS: u32 = 3;

/// The Windows errors of a DDC/CI call that a second try may not meet: the I2C transfer failed
/// one way or another, or the monitor's reply was garbled.
pub open spec fn spec_is_transient(code: u32) -> bool {
    ||| code == 0xC026_2582
    ||| code == 0xC026_2583
    ||| code == 0xC026_2585
    ||| code == 0xC026_2586
    ||| code == 0xC026_2589
    ||| code == 0xC026_258A
    ||| code == 0xC026_258B
}

pub fn is_transient(code: u32) -> (r: bool)
    ensures
        r == spec_is_transient(code),
{
    code == 0xC026_2582 || code == 0xC026_2583 || code == 0xC026_2585 || code == 0xC026_2586
        || code == 0xC026_2589 || code == 0xC026_258A || code == 0xC026_258B
}

/// Whether a DDC/CI call that failed with `code` on its `attempt`th try (counting from 1) is
/// tried again.
pub fn retry_ddc(attempt: u32, code: u32) -> (r: bool)
    ensures
        r == (attempt < DDC_ATTEMPTS && spec_is_transient(code)),
{
    attempt < DDC_ATTEMPTS && is_transient(code)
}

/// A DDC/CI call is tried at most `DDC_ATTEMPTS` times: a failure on the last try is final.
pub proof fn law_ddc_attempts_are_bounded(attempt: u32, code: u32)
    requires
        attempt >= DDC_ATTEMPTS,
    ensures
        !(attempt < DDC_ATTEMPTS && spec_is_transient(code)),
{
}

/// Which ways of turning displays off a method uses: through DDC/CI, through the system.
pub fn power_off_ways(method: PowerOffMethod) -> (r: (bool, bool))
    ensures
        r.0 == (method == PowerOffMethod::Ddc || method == PowerOffMethod::Both),
        r.1 == (method == PowerOffMethod::System || method == PowerOffMethod::Both),
{
    match method {
        PowerOffMethod::System => (false, true),
        PowerOffMethod::Ddc => (true, false),
        PowerOffMethod::Both => (true, true),
    }
}

/// What software dimming does to a monitor: the other way of dimming is always taken away; the
/// chosen way is taken away too at full level, and set to the level below it.
#[derive(Clone, Copy, Debug, PartialEq, Eq)]
pub enum SoftwareStep {
    Clear,
    Dim(u8),
}

pub fn software_step(level: u8) -> (r: SoftwareStep)
    ensures
        r == if level >= 100 {
            SoftwareStep::Clear
        } else {
            SoftwareStep::Dim(level)
        },
{
    if level >= 100 {
        SoftwareStep::Clear
    } else {
        SoftwareStep::Dim(level)
    }
}

/// Apple's vendor number in a display's EDID.
pub const APPLE_VENDOR: u32 = 0x610;

/// Whether macOS's DisplayServices is asked for a display's brightness: it also claims
/// third-party monitors it cannot drive, so only built-in screens and Apple's own displays.
pub fn asks_native(internal: bool, vendor: u32) -> (r: bool)
    ensures
        r == (internal || vendor == APPLE_VENDOR),
{
    internal || vendor == APPLE_VENDOR
}

} // verus!

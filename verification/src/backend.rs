//! What the worker asks of a platform, and how a slider position maps to a monitor level.

use vstd::prelude::*;

use crate::model::{MonitorId, PowerOffMethod, Rect, SoftwareDimMode};

verus! {

/// The kind of hardware control a monitor has: DDC/CI, or the system's own control of a
/// built-in screen (WMI on Windows, DisplayServices on macOS).
#[derive(Clone, Copy, Debug, PartialEq, Eq)]
pub enum HardwareKind {
    Ddc,
    Wmi,
}

/// A monitor as the platform found it.
#[derive(Debug)]
pub struct Display {
    pub id: MonitorId,
    pub name: String,
    pub bounds: Rect,
    pub internal: bool,
    pub hdr: bool,
    /// The hardware control and the level it last reported, in percent.
    pub hardware: Option<(HardwareKind, u8)>,
    /// The SDR content brightness of an HDR display, in percent.
    pub sdr: Option<u8>,
}

impl Clone for Display {
    fn clone(&self) -> (r: Self)
        ensures
            r == *self,
    {
        Display {
            id: self.id.clone(),
            name: self.name.clone(),
            bounds: self.bounds,
            internal: self.internal,
            hdr: self.hdr,
            hardware: self.hardware,
            sdr: self.sdr,
        }
    }
}

/// Why a platform could not carry out a request.
#[derive(Debug)]
pub enum BackendError {
    NotFound,
    Unsupported,
    Failed(String),
}

impl BackendError {
    /// The message shown for the error.
    pub fn message(&self) -> (r: String)
        ensures
            r@ == spec_error_message(*self),
    {
        proof {
            reveal_strlit("monitor not found");
            reveal_strlit("not supported on this monitor");
        }
        match self {
            BackendError::NotFound => String::from_str("monitor not found"),
            BackendError::Unsupported => String::from_str("not supported on this monitor"),
            BackendError::Failed(text) => text.clone(),
        }
    }
}

pub open spec fn spec_error_message(err: BackendError) -> Seq<char> {
    match err {
        BackendError::NotFound => "monitor not found"@,
        BackendError::Unsupported => "not supported on this monitor"@,
        BackendError::Failed(text) => text@,
    }
}

/// A platform's access to its monitors. Each platform implements it; what the calls do to the
/// monitors is the platform's business, so the methods promise nothing.
/// A write asked of a backend: a level for a monitor by one of its ways, taking software
/// dimming away, or turning displays off. Monitors are named by their identity's text.
pub enum BackendCall {
    SetHardware { id: Ghost<Seq<char>>, percent: u8 },
    SetSdr { id: Ghost<Seq<char>>, percent: u8 },
    SetSoftware { id: Ghost<Seq<char>>, mode: SoftwareDimMode, level: u8 },
    ClearSoftware { id: Ghost<Seq<char>> },
    ClearAllSoftware,
    PowerOff { method: PowerOffMethod, ids: Ghost<Seq<Seq<char>>> },
}

/// The identities' texts.
pub open spec fn ids_view(ids: Seq<MonitorId>) -> Seq<Seq<char>> {
    ids.map_values(|id: MonitorId| id@)
}

/// The platform's control of the monitors. Each write asked of it is noted in `calls`, which
/// is what the worker's contracts speak of; looking for displays writes nothing.
pub trait Backend {
    /// The writes asked of the backend so far, in order. A backend that keeps no account of
    /// them cannot meet the contracts below, so each verified backend gives its own.
    closed spec fn calls(&self) -> Seq<BackendCall> {
        Seq::empty()
    }

    fn enumerate(&mut self) -> (r: Vec<Display>)
        ensures
            final(self).calls() == old(self).calls(),
    ;

    fn set_hardware(&mut self, id: &MonitorId, percent: u8) -> (r: Result<(), BackendError>)
        ensures
            final(self).calls() == old(self).calls().push(
                BackendCall::SetHardware { id: Ghost(id@), percent },
            ),
    ;

    /// Sets the SDR content brightness of an HDR display; a platform without it refuses.
    fn set_sdr(&mut self, id: &MonitorId, percent: u8) -> (r: Result<(), BackendError>)
        ensures
            final(self).calls() == old(self).calls().push(
                BackendCall::SetSdr { id: Ghost(id@), percent },
            ),
    ;

    fn set_software(&mut self, id: &MonitorId, mode: SoftwareDimMode, level: u8) -> (r: Result<
        (),
        BackendError,
    >)
        ensures
            final(self).calls() == old(self).calls().push(
                BackendCall::SetSoftware { id: Ghost(id@), mode, level },
            ),
    ;

    fn clear_software(&mut self, id: &MonitorId)
        ensures
            final(self).calls() == old(self).calls().push(
                BackendCall::ClearSoftware { id: Ghost(id@) },
            ),
    ;

    fn clear_all_software(&mut self)
        ensures
            final(self).calls() == old(self).calls().push(BackendCall::ClearAllSoftware),
    ;

    fn power_off(&mut self, method: PowerOffMethod, ddc_ids: &[MonitorId])
        ensures
            final(self).calls() == old(self).calls().push(
                BackendCall::PowerOff { method, ids: Ghost(ids_view(ddc_ids@)) },
            ),
    ;
}

/// The lower end of a monitor's level range: both ends capped at 100, and swapped if given
/// the wrong way round.
pub open spec fn range_lo(min: u8, max: u8) -> int {
    let a = if min <= 100 { min as int } else { 100 };
    let b = if max <= 100 { max as int } else { 100 };
    if a <= b { a } else { b }
}

/// The upper end of a monitor's level range.
pub open spec fn range_hi(min: u8, max: u8) -> int {
    let a = if min <= 100 { min as int } else { 100 };
    let b = if max <= 100 { max as int } else { 100 };
    if a <= b { b } else { a }
}

/// The level a slider position selects: the position scaled onto the range, rounded half up.
pub open spec fn spec_slider_to_level(value: u8, min: u8, max: u8) -> int {
    let lo = range_lo(min, max);
    let hi = range_hi(min, max);
    let v = if value <= 100 { value as int } else { 100 };
    lo + (v * (hi - lo) + 50) / 100
}

/// The slider position a level shows at: the level clamped to the range and scaled back,
/// rounded half up; a range of one level shows as full.
pub open spec fn spec_level_to_slider(level: u8, min: u8, max: u8) -> int {
    let lo = range_lo(min, max);
    let hi = range_hi(min, max);
    if hi == lo {
        100
    } else {
        let l = if level < lo { lo } else if level > hi { hi } else { level as int };
        ((l - lo) * 100 + (hi - lo) / 2) / (hi - lo)
    }
}

proof fn lemma_scaled_fits(v: int, d: int)
    by (nonlinear_arith)
    requires
        0 <= v <= 100,
        0 <= d <= 100,
    ensures
        0 <= v * d <= 10000,
        0 <= (v * d + 50) / 100 <= d,
{
}

proof fn lemma_unscaled_fits(k: int, d: int)
    by (nonlinear_arith)
    requires
        0 <= k <= d,
        1 <= d <= 100,
    ensures
        0 <= k * 100 <= 10000,
        0 <= (k * 100 + d / 2) / d <= 100,
{
}

fn ordered(min: u8, max: u8) -> (r: (u8, u8))
    ensures
        r.0 == range_lo(min, max),
        r.1 == range_hi(min, max),
        r.0 <= r.1 <= 100,
{
    let min = if min <= 100 { min } else { 100 };
    let max = if max <= 100 { max } else { 100 };
    if min <= max {
        (min, max)
    } else {
        (max, min)
    }
}

/// Maps a slider position (0 to 100) onto a monitor's level range.
pub fn slider_to_level(value: u8, min: u8, max: u8) -> (r: u8)
    ensures
        r == spec_slider_to_level(value, min, max),
        range_lo(min, max) <= r <= range_hi(min, max),
{
    let (lo, hi) = ordered(min, max);
    let value: u32 = if value <= 100 { value as u32 } else { 100 };
    proof {
        lemma_scaled_fits(value as int, (hi - lo) as int);
    }
    let span: u32 = (hi - lo) as u32;
    (lo as u32 + (value * span + 50) / 100) as u8
}

/// A level always shows at a slider position from 0 to 100.
pub proof fn lemma_level_to_slider_range(level: u8, min: u8, max: u8)
    ensures
        0 <= spec_level_to_slider(level, min, max) <= 100,
{
    let lo = range_lo(min, max);
    let hi = range_hi(min, max);
    if hi != lo {
        let l = if level < lo {
            lo
        } else if level > hi {
            hi
        } else {
            level as int
        };
        lemma_unscaled_fits(l - lo, hi - lo);
    }
}

/// Maps a monitor level back to the slider position that shows it.
pub fn level_to_slider(level: u8, min: u8, max: u8) -> (r: u8)
    ensures
        r == spec_level_to_slider(level, min, max),
        r <= 100,
{
    let (lo, hi) = ordered(min, max);
    if hi == lo {
        return 100;
    }
    let level = if level < lo {
        lo
    } else if level > hi {
        hi
    } else {
        level
    };
    let span: u32 = (hi - lo) as u32;
    let k: u32 = (level - lo) as u32;
    proof {
        lemma_unscaled_fits(k as int, span as int);
    }
    ((k * 100 + span / 2) / span) as u8
}

/// Over the full range, slider positions and levels are the same numbers.
pub proof fn law_full_range_is_identity(v: u8)
    requires
        v <= 100,
    ensures
        spec_slider_to_level(v, 0, 100) == v,
        spec_level_to_slider(v, 0, 100) == v,
{
    assert((v * 100 + 50) / 100 == v) by (nonlinear_arith)
        requires
            v <= 100,
    ;
}

/// The ends of the slider select the ends of the range, and the ends of the range show at the
/// ends of the slider.
pub proof fn law_range_ends(min: u8, max: u8)
    ensures
        spec_slider_to_level(0, min, max) == range_lo(min, max),
        spec_slider_to_level(100, min, max) == range_hi(min, max),
        range_lo(min, max) < range_hi(min, max) ==> spec_level_to_slider(
            range_lo(min, max) as u8,
            min,
            max,
        ) == 0,
        spec_level_to_slider(range_hi(min, max) as u8, min, max) == 100,
{
    let lo = range_lo(min, max);
    let hi = range_hi(min, max);
    let d = hi - lo;
    assert((100 * d + 50) / 100 == d) by (nonlinear_arith)
        requires
            0 <= d <= 100,
    ;
    if d > 0 {
        assert((d / 2) / d == 0) by (nonlinear_arith)
            requires
                d > 0,
        ;
        assert((d * 100 + d / 2) / d == 100) by (nonlinear_arith)
            requires
                d > 0,
        ;
    }
}

/// A higher slider position never selects a lower level.
pub proof fn law_slider_to_level_monotone(v1: u8, v2: u8, min: u8, max: u8)
    requires
        v1 <= v2,
    ensures
        spec_slider_to_level(v1, min, max) <= spec_slider_to_level(v2, min, max),
{
    let d = range_hi(min, max) - range_lo(min, max);
    let a = if v1 <= 100 { v1 as int } else { 100 };
    let b = if v2 <= 100 { v2 as int } else { 100 };
    assert((a * d + 50) / 100 <= (b * d + 50) / 100) by (nonlinear_arith)
        requires
            0 <= a <= b,
            0 <= d,
    ;
}

/// A level within the range, shown on the slider and written back from there, is the same
/// level: reading a monitor and writing its slider back leaves it where it was.
pub proof fn law_level_round_trip(level: u8, min: u8, max: u8)
    requires
        range_lo(min, max) <= level <= range_hi(min, max),
    ensures
        spec_slider_to_level(spec_level_to_slider(level, min, max) as u8, min, max) == level,
{
    let lo = range_lo(min, max);
    let hi = range_hi(min, max);
    let d = hi - lo;
    if d == 0 {
        assert(spec_level_to_slider(level, min, max) == 100);
        assert((100 * d + 50) / 100 == 0);
    } else {
        let k = level - lo;
        let h = d / 2;
        let n = k * 100 + h;
        let s = n / d;
        let r = n % d;
        assert(n == s * d + r && 0 <= r < d) by (nonlinear_arith)
            requires
                d > 0,
                s == n / d,
                r == n % d,
        ;
        lemma_unscaled_fits(k, d);
        assert(0 <= s <= 100);
        // s * d lies within half a step of 100 * k, so rounding s * d / 100 gives k back
        assert(100 * k <= s * d + 50 < 100 * k + 100) by (nonlinear_arith)
            requires
                n == s * d + r,
                0 <= r < d,
                n == k * 100 + h,
                h == d / 2,
                1 <= d <= 100,
                0 <= k <= d,
                s * d + r == k * 100 + h,
        {
            if d == 100 {
                assert(h == 50);
                assert(s * 100 + r == k * 100 + 50);
                assert(r == 50) by (nonlinear_arith)
                    requires
                        s * 100 + r == k * 100 + 50,
                        0 <= r < 100,
                ;
            }
        }
        assert((s * d + 50) / 100 == k) by (nonlinear_arith)
            requires
                100 * k <= s * d + 50 < 100 * k + 100,
        ;
        assert(spec_level_to_slider(level, min, max) == s);
    }
}

} // verus!

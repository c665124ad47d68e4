//! Decisions of the platform service: its timers (macOS) — a refresh a moment after the
//! displays change, turning the displays off a moment after it is asked, putting dimmed gamma
//! curves back now and then — and which wheel events over the tray icon it takes (Windows).

use vstd::prelude::*;

use crate::model::Rect;

verus! {

/// Display changes come in bursts: the refresh waits until none came for this long.
pub const DISPLAY_CHANGE_DEBOUNCE_MS: u64 = 1500;

/// Turning the displays off waits this long, else the click or key release that asked for it
/// wakes them again.
pub const POWER_OFF_DELAY_MS: u64 = 400;

/// How often dimmed gamma curves are put back where something else changed them.
pub const GAMMA_CHECK_INTERVAL_MS: u64 = 3000;

/// A request to the timers.
#[derive(Clone, Copy, Debug, PartialEq, Eq)]
pub enum TimerRequest {
    DisplayChange,
    PowerOff,
}

/// When each timer is due, in milliseconds of the service's clock.
#[derive(Clone, Copy, Debug, PartialEq, Eq)]
pub struct Timers {
    pub display_change: Option<u64>,
    pub power_off: Option<u64>,
    pub gamma_check: u64,
}

/// What is due now.
#[derive(Clone, Copy, Debug, PartialEq, Eq)]
pub struct TimerActions {
    /// Tell the app that the displays changed
    pub displays_changed: bool,
    /// Put the displays to sleep
    pub power_off: bool,
    /// Put the dimmed gamma curves back
    pub gamma_check: bool,
}

/// A time plus a delay, held at the clock's end.
pub open spec fn later(now: u64, delay: u64) -> u64 {
    if now + delay > u64::MAX {
        u64::MAX
    } else {
        (now + delay) as u64
    }
}

fn later_exec(now: u64, delay: u64) -> (r: u64)
    ensures
        r == later(now, delay),
{
    if now > u64::MAX - delay {
        u64::MAX
    } else {
        now + delay
    }
}

pub open spec fn due(at: Option<u64>, now: u64) -> bool {
    at matches Some(t) && t <= now
}

/// The timers at the start.
pub open spec fn spec_start(now: u64) -> Timers {
    Timers { display_change: None, power_off: None, gamma_check: later(now, GAMMA_CHECK_INTERVAL_MS) }
}

/// What is due at `now`, and the timers after it was done.
pub open spec fn spec_fire(s: Timers, now: u64) -> (Timers, TimerActions) {
    let actions = TimerActions {
        displays_changed: due(s.display_change, now),
        power_off: due(s.power_off, now),
        gamma_check: s.gamma_check <= now,
    };
    (
        Timers {
            display_change: if actions.displays_changed {
                None
            } else {
                s.display_change
            },
            power_off: if actions.power_off {
                None
            } else {
                s.power_off
            },
            gamma_check: if actions.gamma_check {
                later(now, GAMMA_CHECK_INTERVAL_MS)
            } else {
                s.gamma_check
            },
        },
        actions,
    )
}

/// The timers after a request at `now`: a display change (re)starts the refresh's wait, a
/// power-off request (re)starts the power-off's.
pub open spec fn spec_request(s: Timers, request: TimerRequest, now: u64) -> Timers {
    match request {
        TimerRequest::DisplayChange => Timers {
            display_change: Some(later(now, DISPLAY_CHANGE_DEBOUNCE_MS)),
            ..s
        },
        TimerRequest::PowerOff => Timers { power_off: Some(later(now, POWER_OFF_DELAY_MS)), ..s },
    }
}

/// When the service next has something to do: the earliest of the timers.
pub open spec fn spec_next_wake(s: Timers) -> u64 {
    let a = match s.display_change {
        Some(t) => if t < s.gamma_check {
            t
        } else {
            s.gamma_check
        },
        None => s.gamma_check,
    };
    match s.power_off {
        Some(t) => if t < a {
            t
        } else {
            a
        },
        None => a,
    }
}

impl Timers {
    pub fn new(now: u64) -> (r: Self)
        ensures
            r == spec_start(now),
    {
        Timers {
            display_change: None,
            power_off: None,
            gamma_check: later_exec(now, GAMMA_CHECK_INTERVAL_MS),
        }
    }

    /// Takes what is due at `now` off the timers, and says what it is.
    pub fn fire(&mut self, now: u64) -> (r: TimerActions)
        ensures
            (*final(self), r) == spec_fire(*old(self), now),
    {
        let displays_changed = match self.display_change {
            Some(t) => t <= now,
            None => false,
        };
        let power_off = match self.power_off {
            Some(t) => t <= now,
            None => false,
        };
        let gamma_check = self.gamma_check <= now;
        if displays_changed {
            self.display_change = None;
        }
        if power_off {
            self.power_off = None;
        }
        if gamma_check {
            self.gamma_check = later_exec(now, GAMMA_CHECK_INTERVAL_MS);
        }
        TimerActions { displays_changed, power_off, gamma_check }
    }

    pub fn request(&mut self, request: TimerRequest, now: u64)
        ensures
            *final(self) == spec_request(*old(self), request, now),
    {
        match request {
            TimerRequest::DisplayChange => {
                self.display_change = Some(later_exec(now, DISPLAY_CHANGE_DEBOUNCE_MS));
            },
            TimerRequest::PowerOff => {
                self.power_off = Some(later_exec(now, POWER_OFF_DELAY_MS));
            },
        }
    }

    /// How long to wait from `now` for the next timer.
    pub fn wait(&self, now: u64) -> (r: u64)
        ensures
            r == if spec_next_wake(*self) > now {
                (spec_next_wake(*self) - now) as u64
            } else {
                0
            },
    {
        let mut next = self.gamma_check;
        if let Some(t) = self.display_change {
            if t < next {
                next = t;
            }
        }
        if let Some(t) = self.power_off {
            if t < next {
                next = t;
            }
        }
        if next > now {
            next - now
        } else {
            0
        }
    }
}

/// Display changes are debounced: after a change at `t2`, the refresh is not due before the
/// debounce has passed, and a later change starts the wait again, whatever the earlier one
/// (short of the clock's end, where the wait cannot reach past it).
pub proof fn law_display_changes_are_debounced(s: Timers, t1: u64, t2: u64, now: u64)
    requires
        t1 <= t2,
        now < t2 + DISPLAY_CHANGE_DEBOUNCE_MS,
        t2 + DISPLAY_CHANGE_DEBOUNCE_MS <= u64::MAX,
    ensures
        !spec_fire(spec_request(s, TimerRequest::DisplayChange, t2), now).1.displays_changed,
        spec_request(spec_request(s, TimerRequest::DisplayChange, t1), TimerRequest::DisplayChange, t2)
            == spec_request(s, TimerRequest::DisplayChange, t2),
{
}

/// A change is followed by its refresh: once the debounce has passed, it is due.
pub proof fn law_refresh_follows_a_change(s: Timers, t: u64, now: u64)
    requires
        now >= later(t, DISPLAY_CHANGE_DEBOUNCE_MS),
    ensures
        spec_fire(spec_request(s, TimerRequest::DisplayChange, t), now).1.displays_changed,
{
}

/// What fired is done: firing again at the same time does not refresh or turn off again.
pub proof fn law_timers_fire_once(s: Timers, now: u64)
    ensures
        !spec_fire(spec_fire(s, now).0, now).1.displays_changed,
        !spec_fire(spec_fire(s, now).0, now).1.power_off,
{
}

/// The wheel event of the Windows mouse hook that scrolls over the tray icon: the signed
/// wheel movement in the high word of the event's data, where the pointer is inside the
/// icon's rectangle; none elsewhere, and none without the hook.
pub open spec fn spec_tray_wheel(hook: Option<Rect>, x: i32, y: i32, mouse_data: u32) -> Option<
    i32,
> {
    match hook {
        Some(rect) => if rect.spec_contains(x as int, y as int) {
            let high = mouse_data / 0x10000;
            Some(
                if high >= 0x8000 {
                    (high - 0x10000) as i32
                } else {
                    high as i32
                },
            )
        } else {
            None
        },
        None => None,
    }
}

pub fn tray_wheel(hook: Option<Rect>, x: i32, y: i32, mouse_data: u32) -> (r: Option<i32>)
    ensures
        r == spec_tray_wheel(hook, x, y, mouse_data),
{
    match hook {
        Some(rect) => if rect.contains(x, y) {
            let high: u32 = mouse_data / 0x10000;
            if high >= 0x8000 {
                Some(high as i32 - 0x10000)
            } else {
                Some(high as i32)
            }
        } else {
            None
        },
        None => None,
    }
}

} // verus!

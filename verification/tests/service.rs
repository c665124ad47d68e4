use monitorium::model::Rect;
use monitorium::service::{
    tray_wheel, TimerActions, TimerRequest, Timers, DISPLAY_CHANGE_DEBOUNCE_MS,
    GAMMA_CHECK_INTERVAL_MS, POWER_OFF_DELAY_MS,
};

const NOTHING: TimerActions = TimerActions { displays_changed: false, power_off: false, gamma_check: false };

#[test]
fn a_burst_of_display_changes_refreshes_once() {
    let mut timers = Timers::new(0);
    assert_eq!(timers.gamma_check, GAMMA_CHECK_INTERVAL_MS);
    timers.request(TimerRequest::DisplayChange, 100);
    timers.request(TimerRequest::DisplayChange, 900);
    assert_eq!(timers.fire(100 + DISPLAY_CHANGE_DEBOUNCE_MS), NOTHING);
    assert_eq!(timers.wait(1000), 900 + DISPLAY_CHANGE_DEBOUNCE_MS - 1000);
    let fired = timers.fire(900 + DISPLAY_CHANGE_DEBOUNCE_MS);
    assert!(fired.displays_changed);
    assert!(!fired.power_off);
    assert_eq!(timers.display_change, None);
    assert!(!timers.fire(900 + DISPLAY_CHANGE_DEBOUNCE_MS).displays_changed);
}

#[test]
fn power_off_waits_and_gamma_is_checked_regularly() {
    let mut timers = Timers::new(1000);
    timers.request(TimerRequest::PowerOff, 2000);
    assert_eq!(timers.wait(2000), POWER_OFF_DELAY_MS);
    let fired = timers.fire(2000 + POWER_OFF_DELAY_MS);
    assert!(fired.power_off && !fired.displays_changed && !fired.gamma_check);
    let fired = timers.fire(1000 + GAMMA_CHECK_INTERVAL_MS);
    assert!(fired.gamma_check);
    assert_eq!(timers.gamma_check, 1000 + 2 * GAMMA_CHECK_INTERVAL_MS);
    assert_eq!(timers.wait(u64::MAX), 0);
}

#[test]
fn timers_hold_at_the_clock_end() {
    let mut timers = Timers::new(u64::MAX - 5);
    assert_eq!(timers.gamma_check, u64::MAX);
    timers.request(TimerRequest::DisplayChange, u64::MAX - 5);
    assert_eq!(timers.display_change, Some(u64::MAX));
}

#[test]
fn wheel_over_the_tray_icon() {
    let rect = Rect { x: 1800, y: 1040, width: 40, height: 40 };
    // one notch towards the user: -120 in the high word
    let down = ((-120i16 as u16 as u32) << 16) | 0x1234;
    assert_eq!(tray_wheel(Some(rect), 1810, 1050, down), Some(-120));
    assert_eq!(tray_wheel(Some(rect), 1810, 1050, 240 << 16), Some(240));
    assert_eq!(tray_wheel(Some(rect), 1840, 1050, down), None);
    assert_eq!(tray_wheel(None, 1810, 1050, down), None);
}

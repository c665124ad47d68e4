use monitorium::hardware::{asks_native, APPLE_VENDOR};
use monitorium::hardware::{
    ddc_percent, ddc_refresh, overlay_alpha, raw_level, DdcReading, DDC_GRACE_REFRESHES,
    MAX_OVERLAY_ALPHA,
};

#[test]
fn ddc_percent_rounds_half_up_and_clamps() {
    assert_eq!(ddc_percent(50, 100), 50);
    assert_eq!(ddc_percent(1, 3), 33);
    assert_eq!(ddc_percent(2, 3), 67);
    assert_eq!(ddc_percent(500, 100), 100);
    assert_eq!(ddc_percent(0, 255), 0);
    assert_eq!(ddc_percent(128, 255), 50);
}

#[test]
fn raw_level_rounds_half_up_and_clamps() {
    assert_eq!(raw_level(50, 100), 50);
    assert_eq!(raw_level(50, 255), 128);
    assert_eq!(raw_level(200, 80), 80);
    assert_eq!(raw_level(1, 49), 0);
    assert_eq!(raw_level(100, u32::MAX), u32::MAX);
}

#[test]
fn raw_round_trip_on_concrete_monitors() {
    for max in [100u32, 255, 1000, 65535] {
        for p in 0..=100u8 {
            assert_eq!(ddc_percent(raw_level(p, max), max), p);
        }
    }
}

#[test]
fn overlay_alpha_darkens_with_the_level() {
    assert_eq!(overlay_alpha(100), None);
    assert_eq!(overlay_alpha(150), None);
    assert_eq!(overlay_alpha(0), Some(MAX_OVERLAY_ALPHA as u8));
    assert_eq!(overlay_alpha(50), Some(117));
    assert_eq!(overlay_alpha(99), Some(2));
}

#[test]
fn ddc_refresh_keeps_a_reading_for_the_grace() {
    let (kept, control) = ddc_refresh(None, Some((30, 60)));
    assert_eq!(kept, Some(DdcReading { percent: 50, max: 60, failures: 0 }));
    assert_eq!(control, Some((50, 60)));
    let mut reading = kept;
    for n in 1..=DDC_GRACE_REFRESHES {
        let (kept, control) = ddc_refresh(reading, None);
        assert_eq!(kept, Some(DdcReading { percent: 50, max: 60, failures: n }));
        assert_eq!(control, Some((50, 60)));
        reading = kept;
    }
    assert_eq!(ddc_refresh(reading, None), (None, None));
    assert_eq!(ddc_refresh(None, None), (None, None));
}

use monitorium::hardware::{is_transient, power_off_ways, retry_ddc, software_step, SoftwareStep, DDC_ATTEMPTS};
use monitorium::model::PowerOffMethod;

#[test]
fn ddc_retries_only_passing_errors() {
    assert!(is_transient(0xC026_2582));
    assert!(is_transient(0xC026_258B));
    assert!(!is_transient(0xC026_2584));
    assert!(!is_transient(0));
    assert!(retry_ddc(1, 0xC026_2583));
    assert!(retry_ddc(DDC_ATTEMPTS - 1, 0xC026_2583));
    assert!(!retry_ddc(DDC_ATTEMPTS, 0xC026_2583));
    assert!(!retry_ddc(1, 5));
}

#[test]
fn power_off_and_software_steps() {
    assert_eq!(power_off_ways(PowerOffMethod::System), (false, true));
    assert_eq!(power_off_ways(PowerOffMethod::Ddc), (true, false));
    assert_eq!(power_off_ways(PowerOffMethod::Both), (true, true));
    assert_eq!(software_step(100), SoftwareStep::Clear);
    assert_eq!(software_step(140), SoftwareStep::Clear);
    assert_eq!(software_step(99), SoftwareStep::Dim(99));
    assert_eq!(software_step(0), SoftwareStep::Dim(0));
}

#[test]
fn native_control_is_asked_of_apple_displays_only() {
    assert!(asks_native(true, 0x10ac));
    assert!(asks_native(false, APPLE_VENDOR));
    assert!(!asks_native(false, 0x10ac));
}

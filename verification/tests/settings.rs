use monitorium::model::{MonitorId, PowerOffMethod, SoftwareDimMode};
use monitorium::settings::{MonitorSettings, Settings, State, ThemePreference};

#[test]
fn defaults() {
    let s = Settings::default();
    assert_eq!(s.theme, ThemePreference::System);
    assert!(s.start_with_os);
    assert!(!s.link_levels);
    assert!(s.hdr_sdr_brightness);
    assert!(s.software_fallback);
    assert_eq!(s.software_dim_mode, SoftwareDimMode::Overlay);
    assert_eq!(s.power_off_method, PowerOffMethod::System);
    assert!(s.scroll_on_tray);
    assert_eq!(s.scroll_step, 5);
    assert!(s.hotkeys_enabled);
    assert_eq!(s.hotkey_up, "Ctrl+Alt+ArrowUp");
    assert_eq!(s.hotkey_down, "Ctrl+Alt+ArrowDown");
    assert_eq!(s.hotkey_off, "");
    assert_eq!(s.hotkey_step, 10);
    assert!(s.monitors.is_empty());
}

#[test]
fn load_tells_a_first_run() {
    let (s, first) = Settings::load(None);
    assert!(first);
    assert_eq!(s, Settings::default());
    let (s, first) = Settings::load(Some(None));
    assert!(!first);
    assert_eq!(s, Settings::default());
    let mut stored = Settings::default();
    stored.scroll_step = 7;
    let (s, first) = Settings::load(Some(Some(stored.clone())));
    assert!(!first);
    assert_eq!(s, stored);
    assert!(State::load(None).software_levels.is_empty());
}

#[test]
fn monitor_settings_default_until_set() {
    let mut s = Settings::default();
    let id = MonitorId("X".to_string());
    assert_eq!(s.monitor(&id), MonitorSettings::default());
    assert_eq!(MonitorSettings::default().max, 100);
    let ms = MonitorSettings { name: Some("Desk".to_string()), min: 10, max: 90, hidden: true, force_software: false };
    s.set_monitor(&id, ms.clone());
    assert_eq!(s.monitor(&id), ms);
    assert_eq!(s.monitor(&MonitorId("Y".to_string())), MonitorSettings::default());
    assert_eq!(s.monitors.len(), 1);
}

#[test]
fn range_stays_open() {
    let mut ms = MonitorSettings { min: 40, max: 30, ..MonitorSettings::default() };
    ms.keep_range_open();
    assert_eq!((ms.min, ms.max), (40, 41));
    let mut ms = MonitorSettings { min: 100, max: 100, ..MonitorSettings::default() };
    ms.keep_range_open();
    assert_eq!(ms.max, 100);
    let mut ms = MonitorSettings { min: 10, max: 90, ..MonitorSettings::default() };
    ms.keep_range_open();
    assert_eq!((ms.min, ms.max), (10, 90));
}

#[test]
fn monitor_mut_changes_in_place() {
    let mut s = Settings::default();
    let a = MonitorId("a".to_string());
    {
        let ms = s.monitor_mut(&a);
        assert_eq!(*ms, MonitorSettings::default());
        ms.min = 40;
        ms.max = 30;
        ms.keep_range_open();
    }
    assert_eq!(s.monitor(&a).min, 40);
    assert_eq!(s.monitor(&a).max, 41);
    s.monitor_mut(&a).hidden = true;
    assert!(s.monitor(&a).hidden);
    assert_eq!(s.monitor(&a).min, 40);
}

use monitorium::model::{Method, MonitorId, MonitorInfo, Rect};
use monitorium::panel::{
    flyout_origin, hotkey_command, hotkey_field, same_rect, FlyoutAction, FlyoutRows, HotkeyAction, Page, Panel,
};
use monitorium::protocol::WorkerCmd;
use monitorium::settings::Settings;

fn info(id: &str, brightness: u8, hidden: bool) -> MonitorInfo {
    MonitorInfo {
        id: MonitorId(id.to_string()),
        name: format!("Screen {id}"),
        hardware_name: format!("Screen {id}"),
        method: Method::Ddc,
        brightness,
        internal: false,
        hidden,
        has_hardware: true,
        hdr: false,
    }
}

#[test]
fn local_edits_hold_against_late_reports() {
    let mut p = Panel::new(0);
    p.on_monitors(vec![info("a", 10, false), info("b", 20, false)], 0);
    assert!(p.monitors_loaded);
    let cmd = p.set_brightness(&MonitorId("a".to_string()), 60, false, 100);
    assert!(matches!(cmd, WorkerCmd::SetBrightness { value: 60, .. }));
    assert_eq!(p.monitors[0].brightness, 60);
    assert_eq!(p.monitors[1].brightness, 20);
    // the worker reports the old level a moment later: the panel keeps its own
    p.on_monitors(vec![info("a", 10, false), info("b", 25, false)], 1000);
    assert_eq!(p.monitors[0].brightness, 60);
    assert_eq!(p.monitors[1].brightness, 25);
    // later the report wins
    p.on_monitors(vec![info("a", 55, false), info("b", 25, false)], 2000);
    assert_eq!(p.monitors[0].brightness, 55);
    assert!(p.local_edits.is_empty());
}

#[test]
fn linked_and_all_moves() {
    let mut p = Panel::new(0);
    p.on_monitors(vec![info("a", 10, false), info("b", 20, true)], 0);
    p.set_brightness(&MonitorId("a".to_string()), 30, true, 5);
    assert_eq!(p.monitors[1].brightness, 30);
    let cmd = p.set_all_brightness(70, 6);
    assert!(matches!(cmd, WorkerCmd::SetAll(70)));
    assert_eq!(p.monitors[0].brightness, 70);
    // hidden monitors are left alone
    assert_eq!(p.monitors[1].brightness, 30);
}

#[test]
fn tooltip_lists_shown_monitors() {
    let mut p = Panel::new(0);
    p.on_monitors(vec![info("a", 5, false), info("b", 100, true), info("c", 42, false)], 0);
    assert_eq!(p.tooltip(), "Monitorium\nScreen a: 5%\nScreen c: 42%");
    let many: Vec<MonitorInfo> = (0..20).map(|i| info(&format!("{i}"), 100, false)).collect();
    p.on_monitors(many, 0);
    assert_eq!(p.tooltip().chars().count(), 127);
}

#[test]
fn scrolling_counts_whole_notches() {
    let mut p = Panel::new(0);
    assert!(p.scroll_fits(60, 5));
    assert!(p.tray_scroll(60, 5).is_none());
    assert!(matches!(p.tray_scroll(60, 5), Some(WorkerCmd::Step(5))));
    assert_eq!(p.scroll_accum, 0);
    assert!(matches!(p.tray_scroll(-250, 0), Some(WorkerCmd::Step(-2))));
    assert_eq!(p.scroll_accum, -10);
    assert!(!p.scroll_fits(i32::MAX, 255));
    // a new icon position starts counting afresh
    let rect = Some(Rect { x: 1, y: 2, width: 3, height: 4 });
    assert!(p.set_scroll_hook(rect));
    assert_eq!(p.scroll_accum, 0);
    assert!(!p.set_scroll_hook(rect));
}

#[test]
fn shortcuts() {
    assert!(matches!(hotkey_command(HotkeyAction::BrightnessUp, 10), WorkerCmd::Step(10)));
    assert!(matches!(hotkey_command(HotkeyAction::BrightnessDown, 0), WorkerCmd::Step(-1)));
    assert!(matches!(hotkey_command(HotkeyAction::TurnOff, 3), WorkerCmd::TurnOffDisplays));
    let mut s = Settings::default();
    *hotkey_field(&mut s, HotkeyAction::TurnOff) = "Ctrl+Alt+End".to_string();
    assert_eq!(s.hotkey_off, "Ctrl+Alt+End");
    assert_eq!(hotkey_field(&mut s, HotkeyAction::BrightnessUp).as_str(), "Ctrl+Alt+ArrowUp");
}

#[test]
fn flyout_clicks() {
    let mut p = Panel::new(0);
    assert_eq!(p.toggle(10), FlyoutAction::Show);
    assert!(p.show_flyout(Page::Settings, 6000));
    assert_eq!(p.page, Page::Settings);
    assert_eq!(p.toggle(6001), FlyoutAction::Hide);
    assert!(p.hide_flyout(7000));
    assert!(!p.hide_flyout(7001));
    // the click that closed the panel does not reopen it
    assert_eq!(p.toggle(7100), FlyoutAction::Ignore);
    assert_eq!(p.toggle(7400), FlyoutAction::Show);
    assert!(!p.show_flyout(Page::Monitors, 8000));
}

#[test]
fn flyout_rows_follow_links_and_hidden_monitors() {
    let mut p = Panel::new(0);
    assert_eq!(p.flyout_rows(false), FlyoutRows::Loading);
    p.on_monitors(vec![], 0);
    assert_eq!(p.flyout_rows(true), FlyoutRows::Empty);
    let mut none = info("c", 30, false);
    none.method = Method::Unsupported;
    p.on_monitors(vec![info("a", 10, false), info("b", 20, true), none, info("d", 40, false)], 0);
    assert_eq!(p.flyout_rows(false), FlyoutRows::Each(vec![0, 3]));
    assert_eq!(
        p.flyout_rows(true),
        FlyoutRows::All { value: 10, names: "Screen a, Screen d".to_string() }
    );
    p.on_monitors(vec![info("a", 10, false), info("b", 20, true)], 0);
    assert_eq!(p.flyout_rows(true), FlyoutRows::Each(vec![0]));
}

#[test]
fn flyout_opens_by_the_taskbar() {
    let full = Rect { x: 0, y: 0, width: 1920, height: 1080 };
    // taskbar at the bottom
    let work = Rect { x: 0, y: 0, width: 1920, height: 1032 };
    assert_eq!(flyout_origin(work, full, 360, 320, 12), (1548, 700));
    // at the top
    let work = Rect { x: 0, y: 48, width: 1920, height: 1032 };
    assert_eq!(flyout_origin(work, full, 360, 320, 12), (1548, 60));
    // at the left
    let work = Rect { x: 60, y: 0, width: 1860, height: 1080 };
    assert_eq!(flyout_origin(work, full, 360, 320, 12), (72, 748));
    // a panel taller than the screen stays below the top
    let work = Rect { x: 0, y: 0, width: 1920, height: 1032 };
    assert_eq!(flyout_origin(work, full, 360, 2000, 12), (1548, 0));
}

#[test]
fn rectangles_a_pixel_apart_are_the_same() {
    let a = Rect { x: 1200, y: 0, width: 44, height: 48 };
    assert!(same_rect(a, a));
    assert!(same_rect(a, Rect { x: 1201, y: -1, width: 43, height: 49 }));
    assert!(!same_rect(a, Rect { x: 1202, ..a }));
    assert!(!same_rect(a, Rect { y: 2, ..a }));
    assert!(!same_rect(a, Rect { width: 46, ..a }));
    assert!(!same_rect(a, Rect { height: 46, ..a }));
    assert!(!same_rect(a, Rect { x: -1200, ..a }));
}

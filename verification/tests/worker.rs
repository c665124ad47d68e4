use monitorium::backend::{Backend, BackendError, Display, HardwareKind};
use monitorium::model::{Method, MonitorId, PowerOffMethod, Rect, SoftwareDimMode};
use monitorium::protocol::WorkerCmd;
use monitorium::settings::{MonitorSettings, Settings, State};
use monitorium::worker::{step_value, Worker};

#[derive(Default)]
struct Fake {
    displays: Vec<Display>,
    hardware: Vec<(String, u8)>,
    sdr: Vec<(String, u8)>,
    software: Vec<(String, SoftwareDimMode, u8)>,
    cleared: Vec<String>,
    cleared_all: bool,
    powered_off: Option<(PowerOffMethod, Vec<String>)>,
    refuse_hardware: bool,
}

impl Backend for Fake {
    fn enumerate(&mut self) -> Vec<Display> {
        self.displays.clone()
    }

    fn set_hardware(&mut self, id: &MonitorId, percent: u8) -> Result<(), BackendError> {
        if self.refuse_hardware {
            return Err(BackendError::Failed("no".to_string()));
        }
        self.hardware.push((id.0.clone(), percent));
        Ok(())
    }

    fn set_sdr(&mut self, id: &MonitorId, percent: u8) -> Result<(), BackendError> {
        self.sdr.push((id.0.clone(), percent));
        Ok(())
    }

    fn set_software(
        &mut self,
        id: &MonitorId,
        mode: SoftwareDimMode,
        level: u8,
    ) -> Result<(), BackendError> {
        self.software.push((id.0.clone(), mode, level));
        Ok(())
    }

    fn clear_software(&mut self, id: &MonitorId) {
        self.cleared.push(id.0.clone());
    }

    fn clear_all_software(&mut self) {
        self.cleared_all = true;
    }

    fn power_off(&mut self, method: PowerOffMethod, ddc_ids: &[MonitorId]) {
        self.powered_off = Some((method, ddc_ids.iter().map(|i| i.0.clone()).collect()));
    }
}

fn id(s: &str) -> MonitorId {
    MonitorId(s.to_string())
}

fn display(name: &str, x: i32, hardware: Option<(HardwareKind, u8)>) -> Display {
    Display {
        id: id(name),
        name: format!("{name} screen"),
        bounds: Rect { x, y: 0, width: 100, height: 100 },
        internal: false,
        hdr: false,
        hardware,
        sdr: None,
    }
}

fn worker(displays: Vec<Display>, settings: Settings) -> Worker<Fake> {
    let fake = Fake { displays, ..Fake::default() };
    Worker::new(fake, settings, State::default())
}

#[test]
fn start_sorts_by_place_and_reads_levels() {
    let mut w = worker(
        vec![
            display("right", 100, Some((HardwareKind::Ddc, 40))),
            display("left", -100, None),
            display("laptop", 0, Some((HardwareKind::Wmi, 70))),
        ],
        Settings::default(),
    );
    let shown = w.start(0);
    let names: Vec<&str> = shown.iter().map(|m| m.id.0.as_str()).collect();
    assert_eq!(names, vec!["left", "laptop", "right"]);
    assert_eq!(shown[0].method, Method::Overlay);
    assert_eq!(shown[0].brightness, 100);
    assert_eq!(shown[1].method, Method::Native);
    assert_eq!(shown[1].brightness, 70);
    assert_eq!(shown[2].method, Method::Ddc);
    assert_eq!(shown[2].brightness, 40);
    assert_eq!(shown[2].name, "right screen");
    // the software monitor was dimmed to its level, which now counts as unsaved
    assert_eq!(w.backend.software, vec![("left".to_string(), SoftwareDimMode::Overlay, 100)]);
    assert_eq!(w.state_dirty_since, Some(0));
}

#[test]
fn set_brightness_maps_onto_the_range() {
    let mut settings = Settings::default();
    settings.set_monitor(
        &id("a"),
        MonitorSettings { name: Some("  ".to_string()), min: 20, max: 80, hidden: false, force_software: false },
    );
    let mut w = worker(vec![display("a", 0, Some((HardwareKind::Ddc, 50)))], settings);
    w.start(0);
    let (go_on, shown) = w.process(vec![WorkerCmd::SetBrightness { id: id("a"), value: 100 }], 10);
    assert!(go_on);
    let shown = shown.unwrap();
    assert_eq!(shown[0].brightness, 100);
    // a blank name of the user's does not count
    assert_eq!(shown[0].name, "a screen");
    assert_eq!(w.backend.hardware, vec![("a".to_string(), 80)]);
    assert_eq!(w.entries[0].display.hardware, Some((HardwareKind::Ddc, 80)));
    assert_eq!(w.entries[0].last_write, Some(10));
}

#[test]
fn refused_hardware_level_is_not_recorded() {
    let mut w = worker(vec![display("a", 0, Some((HardwareKind::Ddc, 50)))], Settings::default());
    w.start(0);
    w.backend.refuse_hardware = true;
    w.process(vec![WorkerCmd::SetBrightness { id: id("a"), value: 30 }], 5);
    assert_eq!(w.entries[0].value, 30);
    assert_eq!(w.entries[0].display.hardware, Some((HardwareKind::Ddc, 50)));
}

#[test]
fn linked_levels_move_together_and_skip_hidden() {
    let mut settings = Settings::default();
    settings.link_levels = true;
    settings.set_monitor(
        &id("c"),
        MonitorSettings { name: None, min: 0, max: 100, hidden: true, force_software: false },
    );
    let mut w = worker(
        vec![
            display("a", 0, Some((HardwareKind::Ddc, 10))),
            display("b", 100, Some((HardwareKind::Ddc, 20))),
            display("c", 200, Some((HardwareKind::Ddc, 30))),
        ],
        settings,
    );
    w.start(0);
    w.process(vec![WorkerCmd::SetBrightness { id: id("b"), value: 150 }], 1);
    let values: Vec<u8> = w.entries.iter().map(|e| e.value).collect();
    assert_eq!(values, vec![100, 100, 30]);
    // a linked step moves everything to where the first shown monitor steps to
    w.process(vec![WorkerCmd::Step(-30)], 2);
    let values: Vec<u8> = w.entries.iter().map(|e| e.value).collect();
    assert_eq!(values, vec![70, 70, 30]);
}

#[test]
fn steps_are_clamped_and_chain_within_a_batch() {
    let mut w = worker(
        vec![display("a", 0, Some((HardwareKind::Ddc, 95))), display("b", 1, Some((HardwareKind::Ddc, 3)))],
        Settings::default(),
    );
    w.start(0);
    w.process(vec![WorkerCmd::Step(4), WorkerCmd::Step(4)], 1);
    let values: Vec<u8> = w.entries.iter().map(|e| e.value).collect();
    assert_eq!(values, vec![100, 11]);
    w.process(vec![WorkerCmd::Step(-20)], 2);
    let values: Vec<u8> = w.entries.iter().map(|e| e.value).collect();
    assert_eq!(values, vec![80, 0]);
    assert_eq!(step_value(250, i16::MAX), 100);
    assert_eq!(step_value(0, i16::MIN), 0);
}

#[test]
fn shutdown_keeps_what_came_before_and_ignores_the_rest() {
    let mut w = worker(vec![display("a", 0, Some((HardwareKind::Ddc, 50)))], Settings::default());
    w.start(0);
    let (go_on, shown) = w.process(
        vec![WorkerCmd::SetAll(60), WorkerCmd::Shutdown, WorkerCmd::SetAll(10)],
        1,
    );
    assert!(!go_on);
    assert!(shown.is_some());
    assert_eq!(w.entries[0].value, 60);
    assert!(!w.finish());
    assert!(w.backend.cleared_all);
}

#[test]
fn settings_update_reassigns_methods_and_remembers_software_levels() {
    let mut w = worker(vec![display("a", 0, Some((HardwareKind::Ddc, 50)))], Settings::default());
    w.start(0);
    let mut forced = Settings::default();
    forced.set_monitor(
        &id("a"),
        MonitorSettings { name: None, min: 0, max: 100, hidden: false, force_software: true },
    );
    forced.software_dim_mode = SoftwareDimMode::Gamma;
    w.process(vec![WorkerCmd::UpdateSettings(Box::new(forced))], 5000);
    assert_eq!(w.entries[0].method, Method::Gamma);
    // no remembered level: full
    assert_eq!(w.entries[0].value, 100);
    w.process(vec![WorkerCmd::SetBrightness { id: id("a"), value: 40 }], 6000);
    assert_eq!(w.state.software_levels.get(&id("a")), Some(&40));
    assert_eq!(w.backend.software.last(), Some(&("a".to_string(), SoftwareDimMode::Gamma, 40)));
    // back to hardware: the DDC level reads again, as the last write is old enough
    w.process(vec![WorkerCmd::UpdateSettings(Box::new(Settings::default()))], 9000);
    assert_eq!(w.entries[0].method, Method::Ddc);
    assert_eq!(w.entries[0].value, 50);
    assert_eq!(w.backend.cleared, vec!["a".to_string()]);
    // the software level saves two seconds after it changed
    assert_eq!(w.wait_time(5500), 1500);
    assert_eq!(w.wait_time(8000), 0);
    assert!(w.save_state());
    assert_eq!(w.wait_time(8000), 3_600_000);
}

#[test]
fn refresh_keeps_levels_of_known_monitors_and_clears_gone_ones() {
    let mut settings = Settings::default();
    settings.software_fallback = true;
    let mut w = worker(vec![display("a", 0, None), display("b", 10, None)], settings);
    w.start(0);
    w.process(vec![WorkerCmd::SetBrightness { id: id("a"), value: 30 }], 1);
    w.backend.displays = vec![display("a", 0, None), display("c", 5, None)];
    w.process(vec![WorkerCmd::Refresh], 10_000);
    let ids: Vec<&str> = w.entries.iter().map(|e| e.display.id.0.as_str()).collect();
    assert_eq!(ids, vec!["a", "c"]);
    assert_eq!(w.entries[0].value, 30);
    assert_eq!(w.entries[0].last_write, None);
    assert_eq!(w.entries[1].value, 100);
    assert_eq!(w.backend.cleared, vec!["b".to_string()]);
}

#[test]
fn turning_off_passes_the_ddc_monitors() {
    let mut settings = Settings::default();
    settings.power_off_method = PowerOffMethod::Both;
    let mut w = worker(
        vec![display("a", 0, Some((HardwareKind::Ddc, 50))), display("b", 1, Some((HardwareKind::Wmi, 50)))],
        settings,
    );
    w.start(0);
    let (_, shown) = w.process(vec![WorkerCmd::TurnOffDisplays], 1);
    assert!(shown.is_none());
    assert_eq!(w.backend.powered_off, Some((PowerOffMethod::Both, vec!["a".to_string()])));
}

#[test]
fn hdr_prefers_sdr_brightness() {
    let mut d = display("h", 0, Some((HardwareKind::Ddc, 50)));
    d.hdr = true;
    d.sdr = Some(25);
    let mut w = worker(vec![d], Settings::default());
    let shown = w.start(0);
    assert_eq!(shown[0].method, Method::Sdr);
    assert_eq!(shown[0].brightness, 25);
    w.process(vec![WorkerCmd::SetAll(50)], 1);
    assert_eq!(w.backend.sdr, vec![("h".to_string(), 50)]);
    assert_eq!(w.entries[0].display.sdr, Some(50));
}

#[test]
fn without_fallback_monitors_without_hardware_are_unsupported() {
    let mut settings = Settings::default();
    settings.software_fallback = false;
    let mut w = worker(vec![display("a", 0, None)], settings);
    let shown = w.start(0);
    assert_eq!(shown[0].method, Method::Unsupported);
    w.process(vec![WorkerCmd::SetAll(10)], 1);
    assert_eq!(w.entries[0].value, 100);
}

#[test]
fn pending_changes_are_written_in_the_order_of_identities() {
    let displays = vec![
        display("b", 0, Some((HardwareKind::Ddc, 50))),
        display("a", 100, Some((HardwareKind::Ddc, 50))),
        display("B", 200, Some((HardwareKind::Ddc, 50))),
    ];
    let mut w = worker(displays, Settings::default());
    w.start(0);
    w.process(
        vec![
            WorkerCmd::SetBrightness { id: id("b"), value: 10 },
            WorkerCmd::SetBrightness { id: id("a"), value: 20 },
            WorkerCmd::SetBrightness { id: id("B"), value: 30 },
        ],
        10,
    );
    assert_eq!(
        w.backend.hardware,
        vec![("B".to_string(), 30), ("a".to_string(), 20), ("b".to_string(), 10)]
    );
}

#[test]
fn gone_monitors_lose_their_dimming_in_the_order_of_identities() {
    let mut w = worker(
        vec![display("z", 0, None), display("m", 5, None), display("a", 10, None)],
        Settings::default(),
    );
    w.start(0);
    let ids: Vec<&str> = w.entries.iter().map(|e| e.display.id.0.as_str()).collect();
    assert_eq!(ids, vec!["z", "m", "a"]);
    w.backend.displays = vec![];
    w.process(vec![WorkerCmd::Refresh], 10_000);
    assert!(w.entries.is_empty());
    assert_eq!(w.backend.cleared, vec!["a".to_string(), "m".to_string(), "z".to_string()]);
}

use monitorium::backend::HardwareKind;
use monitorium::display_config::{target_of, Target, TargetRef};
use monitorium::model::Rect;
use monitorium::windows_displays::{
    display_of, displays_of, hardware_of, lookup_level, plan_displays, GdiMonitor, LevelSource,
    PlannedDisplay,
};

fn target(id: u32, gdi: &str, path: &str, name: &str, internal: bool) -> Target {
    Target {
        target: TargetRef { adapter_low: 1, adapter_high: 0, id },
        gdi_name: gdi.to_string(),
        device_path: path.to_string(),
        friendly_name: name.to_string(),
        internal,
        hdr: false,
        sdr: None,
    }
}

fn monitor(gdi: &str, physical: &[&str]) -> GdiMonitor {
    GdiMonitor {
        gdi_name: gdi.to_string(),
        bounds: Rect { x: 0, y: 0, width: 1920, height: 1080 },
        physical: physical.iter().map(|p| p.to_string()).collect(),
    }
}

fn summary(p: &PlannedDisplay) -> (usize, usize, String, String, Option<String>, LevelSource) {
    (p.target, p.monitor, p.id.0.clone(), p.name.clone(), p.key.clone(), p.source)
}

#[test]
fn laptop_with_wmi_and_external_by_ddc() {
    let targets = vec![
        target(1, r"\\.\DISPLAY1", r"\\?\DISPLAY#BOE0747#4&1&UID1#{x}", "", true),
        target(2, r"\\.\DISPLAY2", r"\\?\DISPLAY#DEL4321#5&2&UID2#{x}", "DELL U2720Q", false),
    ];
    let monitors = vec![
        monitor(r"\\.\DISPLAY1", &["Generic PnP Monitor"]),
        monitor(r"\\.\display2", &["DELL U2720Q"]),
    ];
    let levels = vec![("BOE0747#4&1&UID1".to_string(), 70u8)];
    let plan: Vec<_> = plan_displays(&targets, &monitors, &levels).iter().map(summary).collect();
    assert_eq!(
        plan,
        vec![
            (
                0,
                0,
                "BOE0747#4&1&UID1".to_string(),
                "Built-in display".to_string(),
                Some("BOE0747#4&1&UID1".to_string()),
                LevelSource::Wmi(70),
            ),
            (
                1,
                1,
                "DEL4321#5&2&UID2".to_string(),
                "DELL U2720Q".to_string(),
                Some("DEL4321#5&2&UID2".to_string()),
                LevelSource::Physical(0),
            ),
        ]
    );
}

#[test]
fn duplicated_gdi_monitor_and_unnamed_targets() {
    // two targets show one GDI monitor (a clone); neither has a name or a key
    let targets = vec![
        target(1, r"\\.\DISPLAY3", "", "", false),
        target(2, r"\\.\DISPLAY3", "", "", false),
        target(3, r"\\.\DISPLAY9", "", "", false),
    ];
    let monitors = vec![monitor(r"\\.\DISPLAY3", &["A"]), monitor(r"\\.\DISPLAY3", &["B"])];
    let plan: Vec<_> = plan_displays(&targets, &monitors, &vec![]).iter().map(summary).collect();
    assert_eq!(
        plan,
        vec![
            (0, 0, r"\\.\DISPLAY3#0".to_string(), "Display 1".to_string(), None, LevelSource::Physical(0)),
            (1, 0, r"\\.\DISPLAY3#1".to_string(), "Display 2".to_string(), None, LevelSource::Unavailable),
        ]
    );
}

#[test]
fn wmi_keeps_the_last_level_of_a_key() {
    let levels = vec![
        ("K".to_string(), 10u8),
        ("L".to_string(), 20u8),
        ("K".to_string(), 30u8),
    ];
    assert_eq!(lookup_level(&levels, &"K".to_string()), Some(30));
    assert_eq!(lookup_level(&levels, &"L".to_string()), Some(20));
    assert_eq!(lookup_level(&levels, &"M".to_string()), None);
}

#[test]
fn hardware_from_the_source() {
    assert_eq!(hardware_of(LevelSource::Wmi(42), None), Some((HardwareKind::Wmi, 42)));
    assert_eq!(hardware_of(LevelSource::Physical(0), Some((64, 100))), Some((HardwareKind::Ddc, 64)));
    assert_eq!(hardware_of(LevelSource::Physical(0), Some((1, 3))), Some((HardwareKind::Ddc, 33)));
    assert_eq!(hardware_of(LevelSource::Physical(0), Some((5, 0))), None);
    assert_eq!(hardware_of(LevelSource::Physical(0), None), None);
    assert_eq!(hardware_of(LevelSource::Unavailable, Some((5, 10))), None);
}

#[test]
fn targets_read_sdr_only_with_hdr() {
    let r = TargetRef { adapter_low: 1, adapter_high: 0, id: 7 };
    let t = target_of(r, "G".into(), "P".into(), "F".into(), 11, Some(0b11), Some(3500));
    assert!(t.internal && t.hdr);
    assert_eq!(t.sdr, Some(50));
    let t = target_of(r, "G".into(), "P".into(), "F".into(), 5, Some(0b01), Some(3500));
    assert!(!t.internal && !t.hdr);
    assert_eq!(t.sdr, None);
    let t = target_of(r, "G".into(), "P".into(), "F".into(), 5, None, None);
    assert_eq!((t.hdr, t.sdr), (false, None));
    let t = target_of(r, "G".into(), "P".into(), "F".into(), 5, Some(3), None);
    assert_eq!((t.hdr, t.sdr), (true, None));
}

#[test]
fn displays_take_their_target_and_plan() {
    let targets = vec![target(1, r"\\.\DISPLAY1", "", "Screen", false)];
    let monitors = vec![monitor(r"\\.\DISPLAY1", &[])];
    let mut plan = plan_displays(&targets, &monitors, &vec![]);
    let mut t = targets[0].clone();
    t.hdr = true;
    t.sdr = Some(40);
    let d = display_of(plan.remove(0), &t, monitors[0].bounds, Some((HardwareKind::Ddc, 20)));
    assert_eq!(d.id.0, r"\\.\DISPLAY1#0");
    assert_eq!(d.name, "Screen");
    assert_eq!(d.bounds, monitors[0].bounds);
    assert!(d.hdr && !d.internal);
    assert_eq!(d.sdr, Some(40));
    assert_eq!(d.hardware, Some((HardwareKind::Ddc, 20)));
}

#[test]
fn planned_displays_become_displays_with_their_reads() {
    let targets = vec![
        target(1, r"\\.\DISPLAY1", r"\\?\DISPLAY#BOE0747#4&1&UID1#{x}", "", true),
        target(2, r"\\.\DISPLAY2", r"\\?\DISPLAY#DEL4321#5&2&UID2#{x}", "DELL U2720Q", false),
    ];
    let mut external = monitor(r"\\.\display2", &["DELL U2720Q"]);
    external.bounds = Rect { x: 1920, y: 0, width: 2560, height: 1440 };
    let monitors = vec![monitor(r"\\.\DISPLAY1", &["Generic PnP Monitor"]), external];
    let levels = vec![("BOE0747#4&1&UID1".to_string(), 70u8)];
    let plan = plan_displays(&targets, &monitors, &levels);
    // the built-in screen has WMI, so a read there would not count
    let shown = displays_of(plan, &targets, &monitors, &vec![Some((10, 100)), Some((60, 120))]);
    assert_eq!(shown.len(), 2);
    assert_eq!(shown[0].id.0, "BOE0747#4&1&UID1");
    assert_eq!(shown[0].name, "Built-in display");
    assert_eq!(shown[0].hardware, Some((HardwareKind::Wmi, 70)));
    assert!(shown[0].internal);
    assert_eq!(shown[0].bounds, Rect { x: 0, y: 0, width: 1920, height: 1080 });
    assert_eq!(shown[1].id.0, "DEL4321#5&2&UID2");
    assert_eq!(shown[1].name, "DELL U2720Q");
    assert_eq!(shown[1].hardware, Some((HardwareKind::Ddc, 50)));
    assert_eq!(shown[1].bounds, Rect { x: 1920, y: 0, width: 2560, height: 1440 });
    // a failed read leaves the display to software dimming
    let plan = plan_displays(&targets, &monitors, &levels);
    let shown = displays_of(plan, &targets, &monitors, &vec![None, None]);
    assert_eq!(shown[1].hardware, None);
}

use monitorium::backend::{Display, HardwareKind};
use monitorium::cli::{list_line, parse_args, parse_u8, Mode};
use monitorium::model::{MonitorId, Rect};

fn args(words: &[&str]) -> Vec<String> {
    words.iter().map(|w| w.to_string()).collect()
}

fn display(name: &str, id: &str) -> Display {
    Display {
        id: MonitorId(id.to_string()),
        name: name.to_string(),
        bounds: Rect { x: 0, y: 0, width: 1920, height: 1080 },
        internal: false,
        hdr: false,
        hardware: None,
        sdr: None,
    }
}

#[test]
fn parse_u8_follows_std() {
    for text in ["0", "7", "100", "255", "+42", "007", "256", "", "+", "-1", "1a", " 5", "99999"] {
        assert_eq!(parse_u8(text), text.parse::<u8>().ok(), "{text:?}");
    }
}

#[test]
fn list_wins_over_set() {
    assert_eq!(parse_args(&args(&["--set", "40", "--list"])), Mode::List);
}

#[test]
fn set_takes_the_next_word_and_caps_at_100() {
    assert_eq!(parse_args(&args(&["--set", "40"])), Mode::SetLevel(40));
    assert_eq!(parse_args(&args(&["--set", "200"])), Mode::SetLevel(100));
    assert_eq!(parse_args(&args(&["--set", "0"])), Mode::SetLevel(0));
}

#[test]
fn set_without_a_level_asks_for_usage() {
    assert_eq!(parse_args(&args(&["--set"])), Mode::SetUsage);
    assert_eq!(parse_args(&args(&["--set", "bright"])), Mode::SetUsage);
    assert_eq!(parse_args(&args(&["--set", "300"])), Mode::SetUsage);
}

#[test]
fn run_notes_the_autostart_flag() {
    assert_eq!(parse_args(&args(&[])), Mode::Run { autostart: false });
    assert_eq!(parse_args(&args(&["--autostart"])), Mode::Run { autostart: true });
    assert_eq!(parse_args(&args(&["--other"])), Mode::Run { autostart: false });
}

#[test]
fn list_line_for_software_only_display() {
    let d = display("Screen", "abc");
    let expected = format!("{:<28} {:<40} {}", "Screen", "abc", "software dimming only");
    assert_eq!(list_line(&d), expected);
}

#[test]
fn list_line_for_hdr_ddc_display() {
    let mut d = display("A very long monitor name that is past the column", "id");
    d.hardware = Some((HardwareKind::Ddc, 55));
    d.internal = true;
    d.hdr = true;
    d.sdr = Some(30);
    let expected = format!(
        "{:<28} {:<40} Ddc 55%, built-in, HDR (SDR brightness 30%)",
        "A very long monitor name that is past the column", "id"
    );
    assert_eq!(list_line(&d), expected);
}

#[test]
fn list_line_for_plain_hdr_wmi_display() {
    let mut d = display("Laptop", "KEY");
    d.hardware = Some((HardwareKind::Wmi, 100));
    d.hdr = true;
    let expected = format!("{:<28} {:<40} Wmi 100%, HDR", "Laptop", "KEY");
    assert_eq!(list_line(&d), expected);
}

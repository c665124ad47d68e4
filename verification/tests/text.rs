use monitorium::autostart::{check_location, moved};
use monitorium::model::{Method, Rect};
use monitorium::text::{blank, contains_text, starts_with_text};

#[test]
fn blank_names() {
    assert!(blank(""));
    assert!(blank(" \t\u{3000}\n"));
    assert!(!blank("  a "));
}

#[test]
fn searching_text() {
    assert!(contains_text("abcabd", "abd"));
    assert!(!contains_text("abcab", "abd"));
    assert!(contains_text("x", ""));
    assert!(starts_with_text("/Volumes/x", "/Volumes/"));
    assert!(!starts_with_text("/Vol", "/Volumes/"));
}

#[test]
fn app_locations() {
    assert!(check_location("/Applications/Monitorium.app/Contents/MacOS/monitorium").is_ok());
    assert_eq!(
        check_location("/Volumes/Monitorium/Monitorium.app/Contents/MacOS/monitorium"),
        Err("Move Monitorium to the Applications folder first".to_string())
    );
    assert!(check_location("/private/var/folders/x/AppTranslocation/y/Monitorium.app").is_err());
}

#[test]
fn moved_apps() {
    let exe = "/Applications/Monitorium.app/Contents/MacOS/monitorium";
    let plist = format!("<plist><string>{exe}</string></plist>");
    assert!(!moved(exe, Some(&plist)));
    assert!(moved("/Users/me/Monitorium.app/Contents/MacOS/monitorium", Some(&plist)));
    assert!(!moved(exe, None));
    assert!(!moved("/src/target/release/monitorium", Some("")));
}

#[test]
fn labels_and_points() {
    assert_eq!(Method::Native.label(true), "Native");
    assert_eq!(Method::Native.label(false), "Built-in");
    assert_eq!(Method::Unsupported.label(false), "Unsupported");
    assert!(Method::Gamma.is_software());
    assert!(!Method::Sdr.is_software());
    let r = Rect { x: 0, y: 0, width: 10, height: 5 };
    assert!(r.contains(0, 0));
    assert!(r.contains(9, 4));
    assert!(!r.contains(10, 4));
    assert!(!r.contains(-1, 0));
    let edge = Rect { x: i32::MAX, y: 0, width: 10, height: 10 };
    assert!(edge.contains(i32::MAX, 0));
}

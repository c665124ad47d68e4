use monitorium::hotkeys::{hotkey_text, parse_hotkey, wanted_hotkeys, Hotkeys};
use monitorium::panel::HotkeyAction;
use monitorium::settings::Settings;

#[test]
fn default_shortcuts_are_wanted_in_order() {
    let s = Settings::default();
    let wanted = wanted_hotkeys(&s);
    assert_eq!(
        wanted,
        vec![
            ("Ctrl+Alt+ArrowUp".to_string(), HotkeyAction::BrightnessUp),
            ("Ctrl+Alt+ArrowDown".to_string(), HotkeyAction::BrightnessDown),
        ]
    );
}

#[test]
fn blank_and_disabled_shortcuts_are_not_wanted() {
    let mut s = Settings::default();
    s.hotkey_up = "  \t".to_string();
    s.hotkey_off = "F9".to_string();
    assert_eq!(
        wanted_hotkeys(&s),
        vec![
            ("Ctrl+Alt+ArrowDown".to_string(), HotkeyAction::BrightnessDown),
            ("F9".to_string(), HotkeyAction::TurnOff),
        ]
    );
    s.hotkeys_enabled = false;
    assert!(wanted_hotkeys(&s).is_empty());
}

#[test]
fn parse_errors_name_the_text() {
    assert!(parse_hotkey("Ctrl+Alt+ArrowUp").is_ok());
    let err = parse_hotkey("Ctrl+Nope").unwrap_err();
    assert!(err.starts_with("Ctrl+Nope: "), "{err}");
    assert!(err.len() > "Ctrl+Nope: ".len());
    let err = parse_hotkey("Ctrl++A").unwrap_err();
    assert!(err.starts_with("Ctrl++A: "), "{err}");
}

#[test]
fn registered_shortcuts_map_ids_to_actions() {
    let mut hotkeys = Hotkeys::new();
    let (up, up_id) = parse_hotkey("Ctrl+Alt+ArrowUp").unwrap();
    let (off, off_id) = parse_hotkey("Shift+F9").unwrap();
    assert_eq!(up_id, up.id());
    assert_eq!(off_id, off.id());
    hotkeys.record(up, up_id, HotkeyAction::BrightnessUp);
    hotkeys.record(off, off_id, HotkeyAction::TurnOff);
    hotkeys.record_error("Ctrl+Q", "taken");
    assert_eq!(hotkeys.action(up.id()), Some(HotkeyAction::BrightnessUp));
    assert_eq!(hotkeys.action(off.id()), Some(HotkeyAction::TurnOff));
    assert_ne!(up.id(), off.id());
    assert_eq!(hotkeys.errors(), &vec!["Ctrl+Q: taken".to_string()]);
    let keys = hotkeys.clear();
    assert_eq!(keys, vec![up, off]);
    assert_eq!(hotkeys.action(up.id()), None);
    assert!(hotkeys.errors().is_empty());
}

#[test]
fn pressed_combinations_become_text() {
    assert_eq!(
        hotkey_text("ArrowUp", "⏶", true, true, false, false).as_deref(),
        Some("Ctrl+Alt+ArrowUp")
    );
    assert_eq!(hotkey_text("F5", "F5", false, false, false, false).as_deref(), Some("F5"));
    assert_eq!(hotkey_text("A", "A", false, false, false, false), None);
    assert_eq!(
        hotkey_text("A", "A", false, false, true, true).as_deref(),
        Some("Shift+Cmd+A")
    );
    // a key global_hotkey does not know by name or symbol
    assert_eq!(hotkey_text("Nope", "¿", true, false, false, false), None);
    // a name that is not a function key needs a modifier
    assert_eq!(hotkey_text("Fx", "Fx", false, false, false, false), None);
}

#[test]
fn prepare_notes_unreadable_shortcuts() {
    let mut hotkeys = Hotkeys::new();
    let (key, id) = hotkeys.prepare("Ctrl+Alt+ArrowDown").unwrap();
    assert_eq!(id, key.id());
    // the same text gives the same id each time
    assert_eq!(parse_hotkey("Ctrl+Alt+ArrowDown").unwrap().1, id);
    assert!(hotkeys.errors().is_empty());
    assert!(hotkeys.prepare("Ctrl+Alt").is_none());
    assert_eq!(hotkeys.errors().len(), 1);
    assert!(hotkeys.errors()[0].starts_with("Ctrl+Alt: "));
}

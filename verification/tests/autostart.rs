use monitorium::autostart::{
    answer_is_on, app_path, is_enabled, login_item_step, refresh, registers_at_first_run, reregister,
    set_enabled,
    LoginItem, LoginItemStep,
};

fn missing() -> Result<LoginItem, String> {
    Err("no exe".to_string())
}

#[test]
fn windows_paths_are_quoted() {
    assert_eq!(
        app_path(r"C:\Program Files\Monitorium\monitorium.exe", true),
        "\"C:\\Program Files\\Monitorium\\monitorium.exe\""
    );
    assert_eq!(app_path("/usr/bin/monitorium", false), "/usr/bin/monitorium");
}

#[test]
fn only_a_clear_yes_is_on() {
    assert!(answer_is_on(&Ok(true)));
    assert!(!answer_is_on(&Ok(false)));
    assert!(!answer_is_on(&Err("no registry".to_string())));
}

#[test]
fn steps_of_turning_on_and_off() {
    let here: Result<(), String> = Ok(());
    let away: Result<(), String> = Err("Move Monitorium to the Applications folder first".to_string());
    assert_eq!(login_item_step(true, &here, false), LoginItemStep::Enable);
    assert_eq!(login_item_step(true, &here, true), LoginItemStep::Enable);
    assert_eq!(
        login_item_step(true, &away, false),
        LoginItemStep::Refuse("Move Monitorium to the Applications folder first".to_string())
    );
    assert_eq!(login_item_step(false, &away, true), LoginItemStep::Disable);
    assert_eq!(login_item_step(false, &here, false), LoginItemStep::Nothing);
    assert!(reregister(true, true));
    assert!(!reregister(true, false));
    assert!(!reregister(false, true));
}

#[test]
fn without_a_login_item_nothing_is_on() {
    assert!(!is_enabled(&mut missing()));
    assert_eq!(set_enabled(&mut missing(), &Ok(()), true), Err("no exe".to_string()));
    assert_eq!(set_enabled(&mut missing(), &Ok(()), false), Err("no exe".to_string()));
    assert_eq!(refresh(&mut missing(), &Ok(()), true), Ok(()));
    assert_eq!(refresh(&mut missing(), &Ok(()), false), Ok(()));
}

#[test]
fn a_misplaced_app_is_not_registered() {
    let location = Err("Move Monitorium to the Applications folder first".to_string());
    assert_eq!(set_enabled(&mut missing(), &location, true), location);
    // turning it off does not care where the app is
    assert_eq!(set_enabled(&mut missing(), &location, false), Err("no exe".to_string()));
}

#[test]
fn only_a_first_release_run_registers_itself() {
    assert!(registers_at_first_run(true, true, false));
    assert!(!registers_at_first_run(false, true, false));
    assert!(!registers_at_first_run(true, false, false));
    assert!(!registers_at_first_run(true, true, true));
}

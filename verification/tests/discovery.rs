use monitorium::discovery::{
    display_name, fallback_screen_id, match_physical, push_number, screen_name, target_id,
};

fn names(words: &[&str]) -> Vec<String> {
    words.iter().map(|w| w.to_string()).collect()
}

#[test]
fn display_names_count_the_unnamed() {
    let mut unnamed = 0;
    assert_eq!(display_name("DELL U2720Q", false, &mut unnamed), "DELL U2720Q");
    assert_eq!(display_name("", true, &mut unnamed), "Built-in display");
    assert_eq!(unnamed, 0);
    assert_eq!(display_name("", false, &mut unnamed), "Display 1");
    assert_eq!(display_name("", false, &mut unnamed), "Display 2");
    assert_eq!(unnamed, 2);
}

#[test]
fn screen_names_prefer_built_in() {
    let mut unnamed = 4;
    assert_eq!(screen_name(true, Some("Color LCD"), &mut unnamed), "Built-in display");
    assert_eq!(screen_name(false, Some("LG UltraFine"), &mut unnamed), "LG UltraFine");
    assert_eq!(screen_name(false, None, &mut unnamed), "Display 5");
    assert_eq!(unnamed, 5);
}

#[test]
fn identities_without_a_key() {
    assert_eq!(target_id("\\\\.\\DISPLAY2", 13), "\\\\.\\DISPLAY2#13");
    assert_eq!(fallback_screen_id(0x10ac, 0xa0c4, 0x3042), "10ACA0C4#00003042");
    assert_eq!(fallback_screen_id(0x1_0000, 0, u32::MAX), "100000000#FFFFFFFF");
    let mut s = String::from("n=");
    push_number(&mut s, 1234567890);
    assert_eq!(s, "n=1234567890");
}

#[test]
fn physical_monitors_match_by_unique_name_first() {
    // the second physical monitor names the first target; the first takes what is left
    let r = match_physical(&names(&["Left", "Right"]), &names(&["Right", "Left"]));
    assert_eq!(r, vec![Some(1), Some(0)]);
}

#[test]
fn physical_monitors_fall_back_to_position() {
    // two targets with the same name: no unique match, so each takes its own place
    let r = match_physical(&names(&["Same", "Same"]), &names(&["Same", "Same"]));
    assert_eq!(r, vec![Some(0), Some(1)]);
    // more physical monitors than targets: the extra one drives nothing
    let r = match_physical(&names(&["A"]), &names(&["X", "Y"]));
    assert_eq!(r, vec![Some(0)]);
    let r = match_physical(&names(&["A", "B"]), &names(&[]));
    assert_eq!(r, vec![None, None]);
}

#[test]
fn taken_position_leaves_a_monitor_unmatched() {
    // the first physical monitor takes target 1 by name; the second finds its place taken
    let r = match_physical(&names(&["A", "B"]), &names(&["B", "Q"]));
    assert_eq!(r, vec![None, Some(0)]);
}

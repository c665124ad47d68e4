use monitorium::display_config::{
    hdr_on, is_built_in, monitor_key, sdr_percent_of_white_level, sdr_white_level,
};

#[test]
fn keys_match_between_sources() {
    let path =
        r"\\?\DISPLAY#BOE0747#4&2a6e4d4d&0&UID8388688#{e6f07b5f-ee97-4a90-b076-33f57bf4eaa7}";
    let wmi = r"DISPLAY\BOE0747\4&2a6e4d4d&0&UID8388688_0";
    assert_eq!(
        monitor_key(path).as_deref(),
        Some("BOE0747#4&2A6E4D4D&0&UID8388688")
    );
    assert_eq!(monitor_key(path), monitor_key(wmi));
    assert_eq!(monitor_key(""), None);
}

#[test]
fn keys_need_two_parts_after_display() {
    assert_eq!(monitor_key(r"display\abc"), None);
    assert_eq!(monitor_key(r"x#Display##abc#def_1#tail").as_deref(), Some("ABC#DEF"));
    assert_eq!(monitor_key(r"no#marker#here"), None);
}

#[test]
fn sdr_levels() {
    // 80 nits is 0 %, 480 nits is 100 %
    assert_eq!(sdr_percent_of_white_level(1000), 0);
    assert_eq!(sdr_percent_of_white_level(6000), 100);
    assert_eq!(sdr_percent_of_white_level(3500), 50);
    assert_eq!(sdr_percent_of_white_level(0), 0);
    assert_eq!(sdr_percent_of_white_level(u32::MAX), 100);
    assert_eq!(sdr_white_level(0), 1000);
    assert_eq!(sdr_white_level(100), 6000);
    assert_eq!(sdr_white_level(200), 6000);
    for p in 0..=100u8 {
        assert_eq!(sdr_percent_of_white_level(sdr_white_level(p)), p);
    }
}

#[test]
fn built_in_screens_and_hdr() {
    assert!(is_built_in(0x8000_0000));
    assert!(is_built_in(11));
    assert!(is_built_in(13));
    assert!(is_built_in(6));
    assert!(!is_built_in(5)); // HDMI
    assert!(!is_built_in(10)); // external DisplayPort
    assert!(hdr_on(Some(0b11)));
    assert!(hdr_on(Some(0b111)));
    assert!(!hdr_on(Some(0b01)));
    assert!(!hdr_on(Some(0b10)));
    assert!(!hdr_on(None));
}

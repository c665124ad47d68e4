use monitorium::ddc::{pair_services, RegistryEntry, Service, checksum, get_request, parse_reply, set_request, take, REPLY_LEN};

// a real reply from an ASUS VG248 at 100 of 100
const REPLY: [u8; REPLY_LEN] = [
    0x6E, 0x88, 0x02, 0x00, 0x10, 0x00, 0x00, 0x64, 0x00, 0x64, 0xA4,
];

#[test]
fn requests() {
    assert_eq!(get_request(0x10), [0x82, 0x01, 0x10, 0xAC]);
    assert_eq!(set_request(0x10, 70), [0x84, 0x03, 0x10, 0x00, 0x46, 0xEE]);
    assert_eq!(set_request(0xD6, 4), [0x84, 0x03, 0xD6, 0x00, 0x04, 0x6A]);
}

#[test]
fn replies() {
    assert_eq!(parse_reply(&REPLY, 0x10), Some((100, 100)));
    assert_eq!(parse_reply(&REPLY, 0x12), None);

    let mut corrupted = REPLY;
    corrupted[9] = 0x63;
    assert_eq!(parse_reply(&corrupted, 0x10), None);

    // "unsupported VCP code", with a matching checksum
    let mut unsupported = REPLY;
    unsupported[3] = 0x01;
    unsupported[10] ^= 0x01;
    assert_eq!(parse_reply(&unsupported, 0x10), None);
}

#[test]
fn request_bytes_cancel_out() {
    let request = set_request(0x10, 0x1234);
    assert_eq!(request[3], 0x12);
    assert_eq!(request[4], 0x34);
    assert_eq!(checksum(0x6E ^ 0x51, &request), 0);
    assert_eq!(checksum(0x6E ^ 0x51, &get_request(0x12)), 0);
}

#[test]
fn reply_with_zero_max_is_refused() {
    let mut reply = [0x6E, 0x88, 0x02, 0x00, 0x10, 0x00, 0x00, 0x00, 0x00, 0x05, 0x00];
    reply[10] = checksum(0x50, &reply[..10]);
    assert_eq!(parse_reply(&reply, 0x10), None);
    reply[7] = 0x0A;
    reply[10] = checksum(0x50, &reply[..10]);
    assert_eq!(parse_reply(&reply, 0x10), Some((5, 10)));
}

fn service(location: &str, identity: Option<(u32, u32, u32)>, entry: u32) -> Service<u32> {
    Service {
        location: location.to_string(),
        vendor: identity.map(|i| i.0),
        model: identity.map(|i| i.1),
        serial: identity.map(|i| i.2),
        entry,
    }
}

#[test]
fn takes_the_service_on_the_framebuffer() {
    let mut services = vec![
        service("/a", Some((1, 2, 3)), 10),
        service("/b", Some((1, 2, 3)), 20),
        service("/c", Some((4, 5, 6)), 30),
    ];
    let taken = take(&mut services, Some("/b"), (9, 9, 9)).unwrap();
    assert_eq!(taken.entry, 20);
    // the last one took its place
    assert_eq!(services.iter().map(|s| s.entry).collect::<Vec<_>>(), vec![10, 30]);
}

#[test]
fn falls_back_to_the_only_matching_identity() {
    let mut services = vec![
        service("/a", Some((1, 2, 3)), 10),
        service("/b", Some((4, 5, 6)), 20),
        service("/c", None, 30),
    ];
    assert_eq!(take(&mut services, Some("/x"), (4, 5, 6)).unwrap().entry, 20);
    assert_eq!(take(&mut services, None, (1, 2, 3)).unwrap().entry, 10);
    assert_eq!(services.len(), 1);
}

#[test]
fn two_matching_identities_take_nothing() {
    let mut services = vec![
        service("/a", Some((1, 2, 3)), 10),
        service("/b", Some((1, 2, 3)), 20),
    ];
    assert!(take(&mut services, None, (1, 2, 3)).is_none());
    assert!(take(&mut services, Some("/z"), (7, 7, 7)).is_none());
    assert_eq!(services.len(), 2);
}

fn framebuffer(location: &str, vendor: u32) -> RegistryEntry<u32> {
    RegistryEntry::Framebuffer {
        location: location.to_string(),
        vendor: Some(vendor),
        model: Some(1),
        serial: None,
    }
}

#[test]
fn services_pair_with_the_framebuffer_before_them() {
    let entries = vec![
        framebuffer("/fb0", 0x610),
        RegistryEntry::AvService { entry: 1, external: false },
        framebuffer("/fb1", 0x10ac),
        framebuffer("/fb2", 0x4c2d),
        RegistryEntry::AvService { entry: 2, external: true },
        RegistryEntry::AvService { entry: 3, external: true },
        framebuffer("/fb3", 0x5e3),
        RegistryEntry::AvService { entry: 4, external: true },
    ];
    let services = pair_services(entries);
    let summary: Vec<(String, Option<u32>, u32)> =
        services.iter().map(|s| (s.location.clone(), s.vendor, s.entry)).collect();
    assert_eq!(
        summary,
        vec![
            ("/fb2".to_string(), Some(0x4c2d), 2),
            ("/fb3".to_string(), Some(0x5e3), 4),
        ]
    );
}

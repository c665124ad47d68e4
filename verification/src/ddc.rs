//! DDC/CI packets for the I2C bus of displays driven by Apple silicon, and the choice of a
//! display's DDC/CI service.

use vstd::prelude::*;

verus! {

/// DDC/CI checksums start from the destination and source addresses.
pub const REQUEST_SEED: u8 = 0x6E ^ 0x51;

pub const REPLY_SEED: u8 = 0x50;

pub const REPLY_LEN: usize = 11;

/// The bytes xored together, starting from the seed.
pub open spec fn xor_fold(seed: u8, bytes: Seq<u8>) -> u8
    decreases bytes.len(),
{
    if bytes.len() == 0 {
        seed
    } else {
        xor_fold(seed, bytes.drop_last()) ^ bytes.last()
    }
}

/// The checksum of the bytes: all of them xored with the seed.
pub fn checksum(seed: u8, bytes: &[u8]) -> (r: u8)
    ensures
        r == xor_fold(seed, bytes@),
{
    let mut sum = seed;
    let n = bytes.len();
    for i in 0..n
        invariant
            n == bytes@.len(),
            sum == xor_fold(seed, bytes@.take(i as int)),
    {
        assert(bytes@.take(i + 1).drop_last() == bytes@.take(i as int));
        sum = sum ^ bytes[i];
    }
    assert(bytes@.take(n as int) == bytes@);
    sum
}

/// The packet with its last byte replaced by the checksum of the others.
pub open spec fn spec_with_checksum(packet: Seq<u8>) -> Seq<u8> {
    packet.update(packet.len() - 1, xor_fold(REQUEST_SEED, packet.take(packet.len() - 1)))
}

pub fn with_checksum<const N: usize>(packet: [u8; N]) -> (r: [u8; N])
    requires
        N >= 1,
    ensures
        r@ == spec_with_checksum(packet@),
{
    let mut packet = packet;
    let sum = checksum(REQUEST_SEED, &packet[0..N - 1]);
    assert(packet@.subrange(0, N - 1) == packet@.take(N - 1));
    packet[N - 1] = sum;
    packet
}

/// A Get VCP Feature request: length byte (0x80 | body length), opcode, code, checksum.
pub open spec fn spec_get_request(code: u8) -> Seq<u8> {
    spec_with_checksum(seq![0x82u8, 0x01u8, code, 0u8])
}

/// A Set VCP Feature request: length byte, opcode, code, the value big-endian, checksum.
pub open spec fn spec_set_request(code: u8, value: u16) -> Seq<u8> {
    spec_with_checksum(seq![0x84u8, 0x03u8, code, (value / 256) as u8, (value % 256) as u8, 0u8])
}

pub fn get_request(code: u8) -> (r: [u8; 4])
    ensures
        r@ == spec_get_request(code),
{
    let r = with_checksum([0x82, 0x01, code, 0]);
    assert([0x82u8, 0x01u8, code, 0u8]@ == seq![0x82u8, 0x01u8, code, 0u8]);
    r
}

pub fn set_request(code: u8, value: u16) -> (r: [u8; 6])
    ensures
        r@ == spec_set_request(code, value),
{
    let high = (value / 256) as u8;
    let low = (value % 256) as u8;
    let r = with_checksum([0x84, 0x03, code, high, low, 0]);
    assert([0x84u8, 0x03u8, code, high, low, 0u8]@ == seq![0x84u8, 0x03u8, code, high, low, 0u8]);
    r
}

/// A reply to a Get VCP Feature request is well formed: source, length, opcode, no error,
/// the requested code, and a checksum that matches.
pub open spec fn reply_valid(reply: Seq<u8>, code: u8) -> bool {
    &&& reply[0] == 0x6E
    &&& reply[1] == 0x88
    &&& reply[2] == 0x02
    &&& reply[3] == 0
    &&& reply[4] == code
    &&& xor_fold(REPLY_SEED, reply.take(REPLY_LEN - 1)) == reply[REPLY_LEN - 1]
}

/// Two bytes as a big-endian number.
pub open spec fn be16(high: u8, low: u8) -> int {
    high * 256 + low
}

/// What a reply says: (current, max), where it is well formed and has a maximum.
pub open spec fn spec_parse_reply(reply: Seq<u8>, code: u8) -> Option<(u16, u16)> {
    if reply_valid(reply, code) && be16(reply[6], reply[7]) > 0 {
        Some((be16(reply[8], reply[9]) as u16, be16(reply[6], reply[7]) as u16))
    } else {
        None
    }
}

/// Parses a Get VCP Feature reply into (current, max).
pub fn parse_reply(reply: &[u8; REPLY_LEN], code: u8) -> (r: Option<(u16, u16)>)
    ensures
        r == spec_parse_reply(reply@, code),
{
    // source, length, opcode, result, code, type, max (2), current (2), checksum
    let sum = checksum(REPLY_SEED, &reply[0..REPLY_LEN - 1]);
    assert(reply@.subrange(0, REPLY_LEN - 1) == reply@.take(REPLY_LEN - 1));
    let valid = reply[0] == 0x6E && reply[1] == 0x88 && reply[2] == 0x02 && reply[3] == 0
        && reply[4] == code && sum == reply[REPLY_LEN - 1];
    let max: u16 = reply[6] as u16 * 256 + reply[7] as u16;
    let current: u16 = reply[8] as u16 * 256 + reply[9] as u16;
    if valid && max > 0 {
        Some((current, max))
    } else {
        None
    }
}

/// The reply a monitor sends for a VCP feature at `current` of `max`.
pub open spec fn spec_reply(code: u8, current: u16, max: u16) -> Seq<u8> {
    let body = seq![
        0x6Eu8,
        0x88u8,
        0x02u8,
        0u8,
        code,
        0u8,
        (max / 256) as u8,
        (max % 256) as u8,
        (current / 256) as u8,
        (current % 256) as u8,
    ];
    body.push(xor_fold(REPLY_SEED, body))
}

proof fn lemma_xor_self(a: u8)
    ensures
        a ^ a == 0,
{
    assert(a ^ a == 0) by (bit_vector);
}

/// A request xored together with the seed, checksum included, comes to 0: that is what the
/// monitor checks.
pub proof fn law_request_checksum_cancels(packet: Seq<u8>)
    requires
        packet.len() >= 1,
    ensures
        xor_fold(REQUEST_SEED, spec_with_checksum(packet)) == 0,
{
    let r = spec_with_checksum(packet);
    assert(r.drop_last() == packet.take(packet.len() - 1));
    lemma_xor_self(xor_fold(REQUEST_SEED, packet.take(packet.len() - 1)));
}

/// A reply as a monitor sends it reads back as the level it reports, for every maximum above 0.
pub proof fn law_reply_round_trip(code: u8, current: u16, max: u16)
    requires
        max > 0,
    ensures
        spec_parse_reply(spec_reply(code, current, max), code) == Some((current, max)),
{
    let r = spec_reply(code, current, max);
    assert(r.take(REPLY_LEN - 1) == r.drop_last());
    assert(r.drop_last() =~= r.take(10));
    assert(max / 256 < 256 && (max / 256) * 256 + max % 256 == max) by (nonlinear_arith)
        requires
            max < 65536,
    ;
    assert(current / 256 < 256 && (current / 256) * 256 + current % 256 == current) by (nonlinear_arith)
        requires
            current < 65536,
    ;
    assert(r[6] == (max / 256) as u8 && r[7] == (max % 256) as u8);
    assert(r[8] == (current / 256) as u8 && r[9] == (current % 256) as u8);
    assert(be16(r[6], r[7]) == max);
    assert(be16(r[8], r[9]) == current);
    let body = seq![
        0x6Eu8,
        0x88u8,
        0x02u8,
        0u8,
        code,
        0u8,
        (max / 256) as u8,
        (max % 256) as u8,
        (current / 256) as u8,
        (current % 256) as u8,
    ];
    assert(r == body.push(xor_fold(REPLY_SEED, body)));
    assert(r.take(10) =~= body);
    assert(r[10] == xor_fold(REPLY_SEED, body));
    assert(reply_valid(r, code));
}

/// A reply for another VCP code is never taken.
pub proof fn law_reply_for_other_code(reply: Seq<u8>, code: u8)
    requires
        reply.len() == REPLY_LEN,
        reply[4] != code,
    ensures
        spec_parse_reply(reply, code) is None,
{
}

/// An external display's DDC/CI service, not opened yet. `E` is the platform's handle to it.
pub struct Service<E> {
    /// IORegistry path of the framebuffer, as in CoreDisplay's `IODisplayLocation`
    pub location: String,
    pub vendor: Option<u32>,
    pub model: Option<u32>,
    pub serial: Option<u32>,
    pub entry: E,
}

pub open spec fn has_identity<E>(s: Service<E>, identity: (u32, u32, u32)) -> bool {
    s.vendor == Some(identity.0) && s.model == Some(identity.1) && s.serial == Some(identity.2)
}

/// `i` is the first service on the framebuffer at the location.
pub open spec fn first_at<E>(services: Seq<Service<E>>, location: Seq<char>, i: int) -> bool {
    &&& 0 <= i < services.len()
    &&& services[i].location@ == location
    &&& forall|j: int| 0 <= j < i ==> (#[trigger] services[j]).location@ != location
}

/// `i` is the only service with the vendor, model and serial number.
pub open spec fn only_with_identity<E>(
    services: Seq<Service<E>>,
    identity: (u32, u32, u32),
    i: int,
) -> bool {
    &&& 0 <= i < services.len()
    &&& has_identity(services[i], identity)
    &&& forall|j: int|
        0 <= j < services.len() && j != i ==> !has_identity(#[trigger] services[j], identity)
}

/// The service that belongs to a display: the one on its framebuffer, or else the only one
/// with its vendor, model and serial number.
pub open spec fn chosen<E>(
    services: Seq<Service<E>>,
    location: Option<Seq<char>>,
    identity: (u32, u32, u32),
    i: int,
) -> bool {
    if location is Some && exists|j: int| first_at(services, location->0, j) {
        first_at(services, location->0, i)
    } else {
        only_with_identity(services, identity, i)
    }
}

/// The first service on the framebuffer at the location.
fn find_at<E>(services: &Vec<Service<E>>, location: &str) -> (r: Option<usize>)
    ensures
        match r {
            Some(i) => first_at(services@, location@, i as int),
            None => forall|j: int|
                0 <= j < services@.len() ==> (#[trigger] services@[j]).location@ != location@,
        },
{
    let wanted = String::from_str(location);
    let n = services.len();
    for i in 0..n
        invariant
            n == services@.len(),
            wanted@ == location@,
            forall|j: int| 0 <= j < i ==> (#[trigger] services@[j]).location@ != location@,
    {
        if services[i].location == wanted {
            return Some(i);
        }
    }
    None
}

fn is(value: Option<u32>, wanted: u32) -> (r: bool)
    ensures
        r == (value == Some(wanted)),
{
    match value {
        Some(v) => v == wanted,
        None => false,
    }
}

/// The only service with the vendor, model and serial number, if exactly one has them.
fn only_matching<E>(services: &Vec<Service<E>>, identity: (u32, u32, u32)) -> (r: Option<usize>)
    ensures
        match r {
            Some(i) => only_with_identity(services@, identity, i as int),
            None => forall|i: int| !only_with_identity(services@, identity, i),
        },
{
    let mut first: Option<usize> = None;
    let mut count: usize = 0;
    let n = services.len();
    for i in 0..n
        invariant
            n == services@.len(),
            count <= 2,
            count == 0 ==> first is None && forall|j: int|
                0 <= j < i ==> !has_identity(#[trigger] services@[j], identity),
            count >= 1 ==> first is Some && first->0 < i && has_identity(
                services@[first->0 as int],
                identity,
            ),
            count == 1 ==> forall|j: int|
                0 <= j < i && j != first->0 ==> !has_identity(#[trigger] services@[j], identity),
            count == 2 ==> exists|a: int, b: int|
                0 <= a < b < i && #[trigger] has_identity(services@[a], identity)
                    && #[trigger] has_identity(services@[b], identity),
    {
        let s = &services[i];
        let hit = is(s.vendor, identity.0) && is(s.model, identity.1) && is(s.serial, identity.2);
        assert(hit == has_identity(services@[i as int], identity));
        if hit {
            if count == 0 {
                first = Some(i);
                count = 1;
            } else if count == 1 {
                assert(has_identity(services@[first->0 as int], identity));
                count = 2;
            }
        }
    }
    if count == 1 {
        first
    } else {
        proof {
            assert forall|i: int| !only_with_identity(services@, identity, i) by {
                if count == 2 && only_with_identity(services@, identity, i) {
                    let (a, b) = choose|a: int, b: int|
                        0 <= a < b < n && #[trigger] has_identity(services@[a], identity)
                            && #[trigger] has_identity(services@[b], identity);
                    assert(a == i || !has_identity(services@[a], identity));
                    assert(b == i || !has_identity(services@[b], identity));
                }
            }
        }
        None
    }
}

pub open spec fn location_view(location: Option<&str>) -> Option<Seq<char>> {
    match location {
        Some(l) => Some(l@),
        None => None,
    }
}

/// Takes the service for a display out of the list: the one on its framebuffer, or else the
/// only one with its vendor, model and serial number. The last service takes the place of the
/// one taken.
pub fn take<E>(services: &mut Vec<Service<E>>, location: Option<&str>, identity: (u32, u32, u32)) -> (r:
    Option<Service<E>>)
    ensures
        match r {
            Some(s) => exists|i: int|
                chosen(old(services)@, location_view(location), identity, i) && s == old(
                    services,
                )@[i] && final(services)@ == old(services)@.update(
                    i,
                    old(services)@.last(),
                ).drop_last(),
            None => final(services)@ == old(services)@ && forall|i: int|
                !chosen(old(services)@, location_view(location), identity, i),
        },
{
    let ghost loc = location_view(location);
    let by_location = match location {
        Some(l) => find_at(services, l),
        None => None,
    };
    proof {
        if loc is Some && by_location is None {
            assert forall|j: int| !first_at(services@, loc->0, j) by {
                if 0 <= j < services@.len() {
                    assert(services@[j].location@ != loc->0);
                }
            }
        }
    }
    let index = match by_location {
        Some(i) => {
            proof {
                let j = choose|j: int| first_at(services@, loc->0, j);
                if j < i {
                    assert(services@[j].location@ != loc->0);
                } else if j > i {
                    assert(services@[i as int].location@ != loc->0);
                }
            }
            Some(i)
        },
        None => only_matching(services, identity),
    };
    match index {
        Some(i) => Some(services.swap_remove(i)),
        None => None,
    }
}

/// An entry of the IORegistry's service plane that matters for DDC/CI: a framebuffer (with its
/// registry path and the vendor, model and serial number of its product attributes), or an
/// AV service proxy (with the platform's handle, and whether it serves an external display).
pub enum RegistryEntry<E> {
    Framebuffer { location: String, vendor: Option<u32>, model: Option<u32>, serial: Option<u32> },
    AvService { entry: E, external: bool },
}

/// The framebuffer seen last and not taken yet, as (location, vendor, model, serial).
pub type PendingFramebuffer = (String, Option<u32>, Option<u32>, Option<u32>);

/// After the first `n` entries: the framebuffer waiting for its service, and the services
/// paired so far. An external display's service follows its framebuffer in the registry, so
/// each external service takes the latest framebuffer not taken yet; a service with none
/// before it, or one that is not external, is left out.
pub open spec fn pair_upto<E>(entries: Seq<RegistryEntry<E>>, n: int) -> (
    Option<PendingFramebuffer>,
    Seq<Service<E>>,
)
    decreases n,
{
    if n <= 0 {
        (None, Seq::empty())
    } else {
        let (framebuffer, services) = pair_upto(entries, n - 1);
        match entries[n - 1] {
            RegistryEntry::Framebuffer { location, vendor, model, serial } => (
                Some((location, vendor, model, serial)),
                services,
            ),
            RegistryEntry::AvService { entry, external } => match framebuffer {
                Some(f) => if external {
                    (
                        None,
                        services.push(
                            Service { location: f.0, vendor: f.1, model: f.2, serial: f.3, entry },
                        ),
                    )
                } else {
                    (framebuffer, services)
                },
                None => (framebuffer, services),
            },
        }
    }
}

pub open spec fn spec_pair_services<E>(entries: Seq<RegistryEntry<E>>) -> Seq<Service<E>> {
    pair_upto(entries, entries.len() as int).1
}

/// The DDC/CI services of the external displays, each with the framebuffer it follows in the
/// registry, in registry order.
pub fn pair_services<E>(entries: Vec<RegistryEntry<E>>) -> (r: Vec<Service<E>>)
    ensures
        r@ == spec_pair_services(entries@),
{
    let ghost all = entries@;
    let mut rest = entries;
    let mut framebuffer: Option<PendingFramebuffer> = None;
    let mut services: Vec<Service<E>> = Vec::new();
    let n = rest.len();
    let mut k: usize = 0;
    while k < n
        invariant
            k <= n,
            n == all.len(),
            rest@ == all.skip(k as int),
            (framebuffer, services@) == pair_upto(all, k as int),
        decreases n - k,
    {
        let ghost before = rest@;
        let item = rest.remove(0);
        assert(item == all[k as int]);
        assert(rest@ =~= all.skip(k + 1));
        match item {
            RegistryEntry::Framebuffer { location, vendor, model, serial } => {
                framebuffer = Some((location, vendor, model, serial));
            },
            RegistryEntry::AvService { entry, external } => {
                if external {
                    match framebuffer {
                        Some(f) => {
                            services.push(
                                Service { location: f.0, vendor: f.1, model: f.2, serial: f.3, entry },
                            );
                            framebuffer = None;
                        },
                        None => {},
                    }
                }
            },
        }
        k = k + 1;
    }
    services
}

} // verus!

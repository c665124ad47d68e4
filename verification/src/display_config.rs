//! Windows display configuration: the identity of a monitor, and the SDR content brightness of
//! HDR displays.

use vstd::prelude::*;
use vstd::string::StrSliceExecFns;

use crate::text::{ascii_upper, push_char, spec_ascii_upper};

verus! {

/// A display target: the adapter's locally unique id (low and high part) and the target id.
#[derive(Clone, Copy, Debug, PartialEq, Eq)]
pub struct TargetRef {
    pub adapter_low: u32,
    pub adapter_high: i32,
    pub id: u32,
}

/// An active display target as the display configuration describes it.
#[derive(Clone, Debug)]
pub struct Target {
    pub target: TargetRef,
    pub gdi_name: String,
    pub device_path: String,
    pub friendly_name: String,
    pub internal: bool,
    pub hdr: bool,
    pub sdr: Option<u8>,
}

/// The output technologies of a screen built into the computer, as the display configuration
/// numbers them: LVDS, embedded DisplayPort, embedded UDI, and internal.
pub const OUTPUT_LVDS: u32 = 6;

pub const OUTPUT_DISPLAYPORT_EMBEDDED: u32 = 11;

pub const OUTPUT_UDI_EMBEDDED: u32 = 13;

pub const OUTPUT_INTERNAL: u32 = 0x8000_0000;

/// Whether a target's output technology is that of a built-in screen.
pub fn is_built_in(technology: u32) -> (r: bool)
    ensures
        r == (technology == OUTPUT_INTERNAL || technology == OUTPUT_DISPLAYPORT_EMBEDDED
            || technology == OUTPUT_UDI_EMBEDDED || technology == OUTPUT_LVDS),
{
    technology == OUTPUT_INTERNAL || technology == OUTPUT_DISPLAYPORT_EMBEDDED || technology
        == OUTPUT_UDI_EMBEDDED || technology == OUTPUT_LVDS
}

/// Whether HDR is on, from the advanced color information where it could be read: bit 0 says
/// it is supported, bit 1 that it is enabled.
pub fn hdr_on(color_info: Option<u32>) -> (r: bool)
    ensures
        r == (color_info matches Some(v) && v & 3 == 3),
{
    match color_info {
        Some(v) => v & 3 == 3,
        None => false,
    }
}

pub const SDR_MIN_NITS: u32 = 80;

pub const SDR_MAX_NITS: u32 = 480;

pub const SDR_STEP_NITS: u32 = 4;

/// The SDR white level as a percentage of the 80 to 480 nits that Windows' slider covers,
/// rounded half up. The white level is in thousandths of 80 nits.
pub open spec fn spec_sdr_percent(white_level: u32) -> int {
    let raw = white_level * 80 / 1000;
    let nits = if raw < 80 {
        80
    } else if raw > 480 {
        480
    } else {
        raw
    };
    ((nits - 80) * 100 + 200) / 400
}

/// The white level for a percentage: the nits it selects, rounded to Windows' 4-nit steps.
pub open spec fn spec_sdr_white_level(percent: u8) -> int {
    let p = if percent <= 100 {
        percent as int
    } else {
        100
    };
    let nits = 80 + p * 400 / 100;
    let stepped = (nits + 2) / 4 * 4;
    stepped * 1000 / 80
}

pub fn sdr_percent_of_white_level(white_level: u32) -> (r: u8)
    ensures
        r == spec_sdr_percent(white_level),
        r <= 100,
{
    let raw: u64 = white_level as u64 * 80 / 1000;
    let nits: u64 = if raw < SDR_MIN_NITS as u64 {
        SDR_MIN_NITS as u64
    } else if raw > SDR_MAX_NITS as u64 {
        SDR_MAX_NITS as u64
    } else {
        raw
    };
    let range: u64 = (SDR_MAX_NITS - SDR_MIN_NITS) as u64;
    (((nits - SDR_MIN_NITS as u64) * 100 + range / 2) / range) as u8
}

pub fn sdr_white_level(percent: u8) -> (r: u32)
    ensures
        r == spec_sdr_white_level(percent),
{
    let range = SDR_MAX_NITS - SDR_MIN_NITS;
    let p: u32 = if percent <= 100 {
        percent as u32
    } else {
        100
    };
    let nits = SDR_MIN_NITS + p * range / 100;
    let nits = (nits + SDR_STEP_NITS / 2) / SDR_STEP_NITS * SDR_STEP_NITS;
    nits * 1000 / 80
}

/// Setting the SDR content brightness to a percentage and reading it back gives the same
/// percentage.
pub proof fn law_sdr_round_trip(percent: u8)
    requires
        percent <= 100,
    ensures
        spec_sdr_percent(spec_sdr_white_level(percent) as u32) == percent,
{
    let p = percent as int;
    assert(p * 400 / 100 == 4 * p);
    assert((80 + 4 * p + 2) / 4 * 4 == 80 + 4 * p);
    assert((80 + 4 * p) * 1000 / 80 == 1000 + 50 * p);
    assert((1000 + 50 * p) * 80 / 1000 == 80 + 4 * p);
    assert((4 * p * 100 + 200) / 400 == p);
}

pub open spec fn is_separator(c: char) -> bool {
    c == '#' || c == '\\'
}

/// The parts of a path between separators, and the part not finished yet, after `n` characters.
pub open spec fn split_upto(s: Seq<char>, n: int) -> (Seq<Seq<char>>, Seq<char>)
    decreases n,
{
    if n <= 0 {
        (Seq::empty(), Seq::empty())
    } else {
        let (parts, cur) = split_upto(s, n - 1);
        let c = s[n - 1];
        if is_separator(c) {
            if cur.len() > 0 {
                (parts.push(cur), Seq::empty())
            } else {
                (parts, Seq::empty())
            }
        } else {
            (parts, cur.push(c))
        }
    }
}

/// The non-empty parts of a path split at `#` and `\\`.
pub open spec fn path_parts(s: Seq<char>) -> Seq<Seq<char>> {
    let (parts, cur) = split_upto(s, s.len() as int);
    if cur.len() > 0 {
        parts.push(cur)
    } else {
        parts
    }
}

pub open spec fn upper_all(s: Seq<char>) -> Seq<char> {
    Seq::new(s.len(), |i: int| spec_ascii_upper(s[i]))
}

/// Equal when ASCII case is ignored.
pub open spec fn eq_ignore_case(a: Seq<char>, b: Seq<char>) -> bool {
    upper_all(a) == upper_all(b)
}

pub open spec fn display_word() -> Seq<char> {
    seq!['D', 'I', 'S', 'P', 'L', 'A', 'Y']
}

/// `i` is the first part that reads "DISPLAY" in any case.
pub open spec fn first_display(parts: Seq<Seq<char>>, i: int) -> bool {
    &&& 0 <= i < parts.len()
    &&& eq_ignore_case(parts[i], display_word())
    &&& forall|j: int| 0 <= j < i ==> !eq_ignore_case(#[trigger] parts[j], display_word())
}

/// What comes before the first `_`, or all of it.
pub open spec fn before_underscore(s: Seq<char>) -> Seq<char> {
    if exists|i: int| 0 <= i < s.len() && s[i] == '_' {
        s.take(choose|i: int| 0 <= i < s.len() && s[i] == '_' && forall|j: int| 0 <= j < i ==> s[j] != '_')
    } else {
        s
    }
}

/// The key a monitor has in both the display configuration and WMI: the two parts after
/// "DISPLAY", the second cut at `_`, upper case, joined by `#`.
pub open spec fn spec_monitor_key(path: Seq<char>) -> Option<Seq<char>> {
    let parts = path_parts(path);
    if exists|i: int| first_display(parts, i) {
        let d = choose|i: int| first_display(parts, i);
        if d + 2 < parts.len() {
            Some(upper_all(parts[d + 1]) + seq!['#'] + upper_all(before_underscore(parts[d + 2])))
        } else {
            None
        }
    } else {
        None
    }
}

fn split_path(path: &str) -> (r: Vec<Vec<char>>)
    ensures
        r@.len() == path_parts(path@).len(),
        forall|i: int| 0 <= i < r@.len() ==> (#[trigger] r@[i])@ == path_parts(path@)[i],
{
    let n = path.unicode_len();
    let mut parts: Vec<Vec<char>> = Vec::new();
    let mut cur: Vec<char> = Vec::new();
    for i in 0..n
        invariant
            n == path@.len(),
            parts@.len() == split_upto(path@, i as int).0.len(),
            forall|k: int|
                0 <= k < parts@.len() ==> (#[trigger] parts@[k])@ == split_upto(path@, i as int).0[k],
            cur@ == split_upto(path@, i as int).1,
    {
        let c = path.get_char(i);
        if c == '#' || c == '\\' {
            if cur.len() > 0 {
                parts.push(cur);
                cur = Vec::new();
            }
        } else {
            cur.push(c);
        }
    }
    if cur.len() > 0 {
        parts.push(cur);
    }
    parts
}

fn is_display_word(part: &Vec<char>) -> (r: bool)
    ensures
        r == eq_ignore_case(part@, display_word()),
{
    let word = ['D', 'I', 'S', 'P', 'L', 'A', 'Y'];
    assert(word@ == display_word());
    if part.len() != 7 {
        assert(upper_all(part@).len() != upper_all(display_word()).len());
        return false;
    }
    for i in 0..7
        invariant
            part@.len() == 7,
            word@ == display_word(),
            forall|j: int| 0 <= j < i ==> spec_ascii_upper(part@[j]) == spec_ascii_upper(word@[j]),
    {
        if ascii_upper(part[i]) != ascii_upper(word[i]) {
            assert(upper_all(part@)[i as int] != upper_all(display_word())[i as int]);
            return false;
        }
    }
    assert(upper_all(part@) =~= upper_all(display_word()));
    true
}

fn push_upper(out: &mut String, chars: &Vec<char>, end: usize)
    requires
        end <= chars@.len(),
    ensures
        final(out)@ == old(out)@ + upper_all(chars@.take(end as int)),
{
    for i in 0..end
        invariant
            end <= chars@.len(),
            out@ == old(out)@ + upper_all(chars@.take(i as int)),
    {
        push_char(out, ascii_upper(chars[i]));
        assert(upper_all(chars@.take(i + 1)) =~= upper_all(chars@.take(i as int)).push(
            spec_ascii_upper(chars@[i as int]),
        ));
    }
}

/// Where the first `_` is, or the length.
fn underscore_at(chars: &Vec<char>) -> (r: usize)
    ensures
        chars@.take(r as int) == before_underscore(chars@),
        r <= chars@.len(),
{
    let n = chars.len();
    for i in 0..n
        invariant
            n == chars@.len(),
            forall|j: int| 0 <= j < i ==> chars@[j] != '_',
    {
        if chars[i] == '_' {
            proof {
                let k = choose|k: int|
                    0 <= k < chars@.len() && chars@[k] == '_' && forall|j: int|
                        0 <= j < k ==> chars@[j] != '_';
                if k < i {
                    assert(chars@[k] != '_');
                } else if k > i {
                    assert(chars@[i as int] != '_');
                }
            }
            return i;
        }
    }
    assert(chars@.take(n as int) == chars@);
    n
}

fn find_display(parts: &Vec<Vec<char>>, Ghost(ps): Ghost<Seq<Seq<char>>>) -> (r: Option<usize>)
    requires
        parts@.len() == ps.len(),
        forall|i: int| 0 <= i < parts@.len() ==> (#[trigger] parts@[i])@ == ps[i],
    ensures
        match r {
            Some(d) => first_display(ps, d as int),
            None => forall|i: int| !first_display(ps, i),
        },
{
    let n = parts.len();
    for d in 0..n
        invariant
            n == ps.len(),
            n == parts@.len(),
            forall|i: int| 0 <= i < parts@.len() ==> (#[trigger] parts@[i])@ == ps[i],
            forall|j: int| 0 <= j < d ==> !eq_ignore_case(#[trigger] ps[j], display_word()),
    {
        if is_display_word(&parts[d]) {
            return Some(d);
        }
    }
    proof {
        assert forall|i: int| !first_display(ps, i) by {
            if 0 <= i < n {
                assert(!eq_ignore_case(ps[i], display_word()));
            }
        }
    }
    None
}

/// The key a monitor has in both the display configuration's device path and WMI's instance
/// name, which makes the two sources agree on which monitor is which.
pub fn monitor_key(path: &str) -> (r: Option<String>)
    ensures
        match r {
            Some(k) => spec_monitor_key(path@) == Some(k@),
            None => spec_monitor_key(path@) is None,
        },
{
    let parts = split_path(path);
    let ghost ps = path_parts(path@);
    let n = parts.len();
    let d = match find_display(&parts, Ghost(ps)) {
        Some(d) => d,
        None => {
            return None;
        },
    };
    proof {
        assert(first_display(ps, d as int));
        let k = choose|k: int| first_display(ps, k);
        if k < d {
            assert(!eq_ignore_case(ps[k], display_word()));
        } else if k > d {
            assert(!eq_ignore_case(ps[d as int], display_word()));
        }
    }
    if n - d <= 2 {
        return None;
    }
    let model = &parts[d + 1];
    let instance = &parts[d + 2];
    let cut = underscore_at(instance);
    let mut key = String::new();
    push_upper(&mut key, model, model.len());
    assert(model@.take(model@.len() as int) == model@);
    push_char(&mut key, '#');
    push_upper(&mut key, instance, cut);
    Some(key)
}

/// What the display configuration says of a target: the names and path it reported, its
/// output technology, its advanced color information where that could be read, and its SDR
/// white level where that was asked for and could be read. The white level is asked for only
/// where HDR is on (`hdr_on`).
pub open spec fn spec_target_of(
    target: TargetRef,
    gdi_name: String,
    device_path: String,
    friendly_name: String,
    technology: u32,
    color_info: Option<u32>,
    white_level: Option<u32>,
) -> Target {
    let hdr = color_info matches Some(v) && v & 3 == 3;
    Target {
        target,
        gdi_name,
        device_path,
        friendly_name,
        internal: technology == OUTPUT_INTERNAL || technology == OUTPUT_DISPLAYPORT_EMBEDDED
            || technology == OUTPUT_UDI_EMBEDDED || technology == OUTPUT_LVDS,
        hdr,
        sdr: if hdr {
            match white_level {
                Some(w) => Some(spec_sdr_percent(w) as u8),
                None => None,
            }
        } else {
            None
        },
    }
}

/// A display target from what the display configuration reported of it.
pub fn target_of(
    target: TargetRef,
    gdi_name: String,
    device_path: String,
    friendly_name: String,
    technology: u32,
    color_info: Option<u32>,
    white_level: Option<u32>,
) -> (r: Target)
    ensures
        r == spec_target_of(
            target,
            gdi_name,
            device_path,
            friendly_name,
            technology,
            color_info,
            white_level,
        ),
        r.sdr is Some ==> r.hdr,
{
    let hdr = hdr_on(color_info);
    let sdr = if hdr {
        match white_level {
            Some(w) => Some(sdr_percent_of_white_level(w)),
            None => None,
        }
    } else {
        None
    };
    Target {
        target,
        gdi_name,
        device_path,
        friendly_name,
        internal: is_built_in(technology),
        hdr,
        sdr,
    }
}

} // verus!

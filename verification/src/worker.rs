//! The brightness worker: it keeps the list of monitors, decides how each one is dimmed, and
//! turns the app's commands into calls on the platform backend.
//!
//! The worker does not keep time or talk to threads: the caller hands it the current time, in
//! milliseconds of a monotonic clock, and runs the loop around it.

use vstd::prelude::*;

use crate::backend::{
    Backend, BackendCall, Display, ids_view, HardwareKind, level_to_slider, slider_to_level, spec_level_to_slider,
    spec_slider_to_level,
};
use crate::id_map::IdMap;
use crate::model::{Method, MonitorId, MonitorInfo, SoftwareDimMode};
use crate::settings::{MonitorSettings, Settings, State, spec_monitor};
use crate::protocol::WorkerCmd;
use crate::text::{blank, is_blank};

verus! {

/// A monitor can report its old level for this long after a write.
pub const RECENT_WRITE_MS: u64 = 2000;

/// Software levels are saved this long after they last changed.
pub const STATE_SAVE_DELAY_MS: u64 = 2000;

/// How long the worker waits for a command when nothing is due.
pub const IDLE_WAIT_MS: u64 = 3_600_000;

/// One monitor as the worker tracks it.
#[derive(Debug)]
pub struct Entry {
    pub display: Display,
    pub method: Method,
    /// The slider position, 0 to 100
    pub value: u8,
    /// When the worker last wrote the monitor's level
    pub last_write: Option<u64>,
}

impl Clone for Entry {
    fn clone(&self) -> (r: Self)
        ensures
            r == *self,
    {
        Entry {
            display: self.display.clone(),
            method: self.method,
            value: self.value,
            last_write: self.last_write,
        }
    }
}

/// What the worker is: its settings, the remembered software levels, since when they are
/// unsaved, its monitors, and the writes it asked of the backend so far.
pub struct Model {
    pub settings: Settings,
    pub levels: Map<Seq<char>, u8>,
    pub dirty: Option<u64>,
    pub entries: Seq<Entry>,
    pub calls: Seq<BackendCall>,
}

/// The worker's state; the backend is the platform it drives.
pub struct Worker<B: Backend> {
    pub backend: B,
    pub settings: Settings,
    pub state: State,
    /// Since when the software levels have changes that are not saved
    pub state_dirty_since: Option<u64>,
    pub entries: Vec<Entry>,
}

pub open spec fn elapsed(since: u64, now: u64) -> int {
    if now >= since {
        now - since
    } else {
        0
    }
}

/// Whether a write happened so recently that the monitor may still report the old level.
pub open spec fn recently_written(last: Option<u64>, now: u64) -> bool {
    match last {
        Some(t) => elapsed(t, now) < RECENT_WRITE_MS,
        None => false,
    }
}

/// How a monitor is dimmed: the SDR content brightness of an HDR display where the user
/// allows it, else its hardware control, else software dimming where allowed, in gamma only
/// where the display is not HDR. Forcing software dimming skips the first two.
pub open spec fn spec_method_for(s: Settings, d: Display) -> Method {
    let ms = spec_monitor(s, d.id@);
    if !ms.force_software && d.hdr && d.sdr is Some && s.hdr_sdr_brightness {
        Method::Sdr
    } else if !ms.force_software && d.hardware matches Some((HardwareKind::Ddc, _)) {
        Method::Ddc
    } else if !ms.force_software && d.hardware matches Some((HardwareKind::Wmi, _)) {
        Method::Native
    } else if !s.software_fallback && !ms.force_software {
        Method::Unsupported
    } else if s.software_dim_mode == SoftwareDimMode::Gamma && !d.hdr {
        Method::Gamma
    } else {
        Method::Overlay
    }
}

/// The level a method can read back from the display, in percent.
pub open spec fn spec_reading(d: Display, m: Method) -> Option<u8> {
    match m {
        Method::Ddc | Method::Native => match d.hardware {
            Some((_, p)) => Some(p),
            None => None,
        },
        Method::Sdr => d.sdr,
        _ => None,
    }
}

/// Whether the panel shows the monitor: it has a method, and the user did not hide it.
pub open spec fn spec_visible(s: Settings, e: Entry) -> bool {
    e.method != Method::Unsupported && !spec_monitor(s, e.display.id@).hidden
}

/// What the panel is told of a monitor. A name of the user's that is blank does not count.
pub open spec fn spec_info(s: Settings, e: Entry) -> MonitorInfo {
    let ms = spec_monitor(s, e.display.id@);
    MonitorInfo {
        id: e.display.id,
        name: match ms.name {
            Some(n) => if is_blank(n@) {
                e.display.name
            } else {
                n
            },
            None => e.display.name,
        },
        hardware_name: e.display.name,
        method: e.method,
        brightness: e.value,
        internal: e.display.internal,
        hidden: ms.hidden,
        has_hardware: e.display.hardware is Some || e.display.sdr is Some,
        hdr: e.display.hdr,
    }
}

/// The way of dimming in software a method stands for: gamma for gamma, else the overlay.
pub open spec fn software_mode(method: Method) -> SoftwareDimMode {
    match method {
        Method::Gamma => SoftwareDimMode::Gamma,
        _ => SoftwareDimMode::Overlay,
    }
}

/// The state after the backend was asked to dim a monitor in software to the level of the
/// slider position `value` in the monitor's range.
pub open spec fn software_call(m: Model, id: Seq<char>, method: Method, value: u8) -> Model {
    let ms = spec_monitor(m.settings, id);
    Model {
        calls: m.calls.push(
            BackendCall::SetSoftware {
                id: Ghost(id),
                mode: software_mode(method),
                level: spec_slider_to_level(value, ms.min, ms.max) as u8,
            },
        ),
        ..m
    }
}

/// A monitor dimmed in software to `value`: the backend is asked for the level, and the
/// position is remembered as `software_written` says.
pub open spec fn software_dimmed(m: Model, id: Seq<char>, method: Method, value: u8, now: u64) -> Model {
    software_written(software_call(m, id, method, value), id, value, now)
}

/// The state after a monitor was dimmed in software to `value`: the level is remembered, and
/// if it changed, the state counts as unsaved from now on (or from earlier, if it already did).
pub open spec fn software_written(m: Model, id: Seq<char>, value: u8, now: u64) -> Model {
    if m.levels.contains_key(id) && m.levels[id] == value {
        m
    } else {
        Model {
            levels: m.levels.insert(id, value),
            dirty: if m.dirty is Some {
                m.dirty
            } else {
                Some(now)
            },
            ..m
        }
    }
}

pub open spec fn has_entry(entries: Seq<Entry>, id: Seq<char>) -> bool {
    exists|j: int| 0 <= j < entries.len() && #[trigger] entries[j].display.id@ == id
}

/// `j` is the first entry with the identity.
pub open spec fn first_with_id(entries: Seq<Entry>, id: Seq<char>, j: int) -> bool {
    &&& 0 <= j < entries.len()
    &&& entries[j].display.id@ == id
    &&& forall|k: int| 0 <= k < j ==> #[trigger] entries[k].display.id@ != id
}

/// The state after the slider of the first monitor with the identity was set to `value`.
/// `accepted` is whether the platform took the new hardware or SDR level, which then becomes
/// the level the display reports.
pub open spec fn apply_model(m: Model, id: Seq<char>, value: u8, accepted: bool, now: u64) -> Model {
    if has_entry(m.entries, id) {
        let j = choose|j: int| first_with_id(m.entries, id, j);
        let e = m.entries[j];
        let ms = spec_monitor(m.settings, id);
        let level = spec_slider_to_level(value, ms.min, ms.max) as u8;
        let d = e.display;
        let d2 = match e.method {
            Method::Ddc | Method::Native => if accepted {
                Display {
                    hardware: match d.hardware {
                        Some((k, _)) => Some((k, level)),
                        None => None,
                    },
                    ..d
                }
            } else {
                d
            },
            Method::Sdr => if accepted {
                Display { sdr: Some(level), ..d }
            } else {
                d
            },
            _ => d,
        };
        let calls = match e.method {
            Method::Ddc | Method::Native => m.calls.push(
                BackendCall::SetHardware { id: Ghost(id), percent: level },
            ),
            Method::Sdr => m.calls.push(BackendCall::SetSdr { id: Ghost(id), percent: level }),
            _ => m.calls,
        };
        let m2 = Model {
            entries: m.entries.update(j, Entry { display: d2, value, last_write: Some(now), ..e }),
            calls,
            ..m
        };
        if e.method.spec_is_software() {
            software_dimmed(m2, id, e.method, value, now)
        } else {
            m2
        }
    } else {
        m
    }
}

/// The brightness changes a batch of commands asks for: the monitors in the order they were
/// first named, and the slider position each one gets.
pub struct Pending {
    pub keys: Seq<MonitorId>,
    pub map: Map<Seq<char>, u8>,
}

pub open spec fn pending_of(p: IdMap<u8>) -> Pending {
    Pending { keys: p.key_seq(), map: p@ }
}

pub open spec fn pend_insert(p: Pending, id: MonitorId, v: u8) -> Pending {
    Pending {
        keys: if p.map.contains_key(id@) {
            p.keys
        } else {
            p.keys.push(id)
        },
        map: p.map.insert(id@, v),
    }
}

pub open spec fn insert_all(p: Pending, ups: Seq<(MonitorId, u8)>) -> Pending
    decreases ups.len(),
{
    if ups.len() == 0 {
        p
    } else {
        let last = ups.last();
        pend_insert(insert_all(p, ups.drop_last()), last.0, last.1)
    }
}

/// The visible monitors among the first `n`, each with the same slider position.
pub open spec fn const_updates(s: Settings, entries: Seq<Entry>, v: u8, n: int) -> Seq<
    (MonitorId, u8),
>
    decreases n,
{
    if n <= 0 {
        Seq::empty()
    } else {
        let u = const_updates(s, entries, v, n - 1);
        let e = entries[n - 1];
        if spec_visible(s, e) {
            u.push((e.display.id, v))
        } else {
            u
        }
    }
}

/// The slider position a monitor has in a batch so far: the pending one, else its own.
pub open spec fn current(p: Pending, e: Entry) -> int {
    if p.map.contains_key(e.display.id@) {
        p.map[e.display.id@] as int
    } else {
        e.value as int
    }
}

/// A slider position moved by a step and held to 0 to 100.
pub open spec fn stepped(base: int, delta: int) -> u8 {
    let t = base + delta;
    if t < 0 {
        0
    } else if t > 100 {
        100
    } else {
        t as u8
    }
}

/// The visible monitors among the first `n`, each moved by the step from where it is.
pub open spec fn step_updates(p: Pending, s: Settings, entries: Seq<Entry>, delta: int, n: int) -> Seq<
    (MonitorId, u8),
>
    decreases n,
{
    if n <= 0 {
        Seq::empty()
    } else {
        let u = step_updates(p, s, entries, delta, n - 1);
        let e = entries[n - 1];
        if spec_visible(s, e) {
            u.push((e.display.id, stepped(current(p, e), delta)))
        } else {
            u
        }
    }
}

pub open spec fn first_visible(s: Settings, entries: Seq<Entry>, j: int) -> bool {
    &&& 0 <= j < entries.len()
    &&& spec_visible(s, entries[j])
    &&& forall|k: int| 0 <= k < j ==> !spec_visible(s, #[trigger] entries[k])
}

pub open spec fn any_visible(s: Settings, entries: Seq<Entry>) -> bool {
    exists|j: int| 0 <= j < entries.len() && spec_visible(s, #[trigger] entries[j])
}

/// Every visible monitor to the same slider position.
pub open spec fn set_all_model(p: Pending, s: Settings, entries: Seq<Entry>, v: u8) -> Pending {
    insert_all(p, const_updates(s, entries, v, entries.len() as int))
}

/// A step up or down. Linked monitors all move to where the first visible one steps to;
/// otherwise each visible monitor steps from its own position.
pub open spec fn step_model(p: Pending, s: Settings, entries: Seq<Entry>, delta: int) -> Pending {
    if s.link_levels {
        if any_visible(s, entries) {
            let j = choose|j: int| first_visible(s, entries, j);
            set_all_model(p, s, entries, stepped(current(p, entries[j]), delta))
        } else {
            p
        }
    } else {
        insert_all(p, step_updates(p, s, entries, delta, entries.len() as int))
    }
}

/// The state after the monitor at `i` got the method the settings give it. A monitor that
/// turns to software dimming takes its remembered software level (else full) and is dimmed to
/// it; one that stays in software is dimmed again. A monitor that turns to another hardware
/// method shows the level that method reads, unless it was written too recently to trust it.
pub open spec fn assign_step(m0: Model, i: int, now: u64) -> Model {
    let e = m0.entries[i];
    let new = spec_method_for(m0.settings, e.display);
    let old = e.method;
    let id = e.display.id@;
    // a monitor leaving software dimming for another way loses its dimming first
    let m = if old.spec_is_software() && old != new {
        Model { calls: m0.calls.push(BackendCall::ClearSoftware { id: Ghost(id) }), ..m0 }
    } else {
        m0
    };
    if new.spec_is_software() {
        let value = if !old.spec_is_software() {
            if m.levels.contains_key(id) {
                m.levels[id]
            } else {
                100
            }
        } else {
            e.value
        };
        software_dimmed(
            Model { entries: m.entries.update(i, Entry { method: new, value, ..e }), ..m },
            id,
            new,
            value,
            now,
        )
    } else if old != new && spec_reading(e.display, new) is Some && !recently_written(
        e.last_write,
        now,
    ) {
        let ms = spec_monitor(m.settings, id);
        let p = spec_reading(e.display, new)->0;
        Model {
            entries: m.entries.update(
                i,
                Entry { method: new, value: spec_level_to_slider(p, ms.min, ms.max) as u8, ..e },
            ),
            ..m
        }
    } else {
        Model { entries: m.entries.update(i, Entry { method: new, ..e }), ..m }
    }
}

pub open spec fn assign_upto(m: Model, n: int, now: u64) -> Model
    decreases n,
{
    if n <= 0 {
        m
    } else {
        assign_step(assign_upto(m, n - 1, now), n - 1, now)
    }
}

/// Every monitor, in order, gets the method the settings give it.
pub open spec fn assign_model(m: Model, now: u64) -> Model {
    assign_upto(m, m.entries.len() as int, now)
}

pub(crate) proof fn lemma_assign_keeps(m: Model, n: int, now: u64)
    requires
        0 <= n <= m.entries.len(),
    ensures
        assign_upto(m, n, now).entries.len() == m.entries.len(),
        assign_upto(m, n, now).settings == m.settings,
        forall|k: int|
            n <= k < m.entries.len() ==> #[trigger] assign_upto(m, n, now).entries[k]
                == m.entries[k],
    decreases n,
{
    if n > 0 {
        lemma_assign_keeps(m, n - 1, now);
    }
}

/// A monitor's place on the desktop orders the list: left to right, then top to bottom.
pub open spec fn placed_before_or_with(a: Entry, b: Entry) -> bool {
    a.display.bounds.x < b.display.bounds.x || (a.display.bounds.x == b.display.bounds.x
        && a.display.bounds.y <= b.display.bounds.y)
}

/// Where an entry goes in a list sorted by place: after every entry placed before or with it.
pub open spec fn is_insert_pos(s: Seq<Entry>, e: Entry, k: int) -> bool {
    &&& 0 <= k <= s.len()
    &&& forall|j: int| 0 <= j < k ==> placed_before_or_with(#[trigger] s[j], e)
    &&& (k < s.len() ==> !placed_before_or_with(s[k], e))
}

pub open spec fn sorted_insert(s: Seq<Entry>, e: Entry) -> Seq<Entry> {
    let k = choose|k: int| is_insert_pos(s, e, k);
    s.insert(k, e)
}

/// The entries ordered by place, keeping the given order among entries at the same place.
pub open spec fn sort_by_place(s: Seq<Entry>) -> Seq<Entry>
    decreases s.len(),
{
    if s.len() == 0 {
        s
    } else {
        sorted_insert(sort_by_place(s.drop_last()), s.last())
    }
}

/// The old entries by identity; where two share one, the later one counts.
pub open spec fn entries_by_id(s: Seq<Entry>) -> Map<Seq<char>, Entry>
    decreases s.len(),
{
    if s.len() == 0 {
        Map::empty()
    } else {
        entries_by_id(s.drop_last()).insert(s.last().display.id@, s.last())
    }
}

/// No display before the one at `i` has its identity.
pub open spec fn first_occurrence(ds: Seq<Display>, i: int) -> bool {
    forall|j: int| 0 <= j < i ==> #[trigger] ds[j].id@ != ds[i].id@
}

/// A found display as an entry: it keeps the slider of the entry it had before, and that
/// entry's last write if it was recent; a new display starts at full. The method is decided
/// afterwards.
pub open spec fn carried_entry(d: Display, prev: Option<Entry>, now: u64) -> Entry {
    Entry {
        display: d,
        method: Method::Unsupported,
        value: match prev {
            Some(p) => p.value,
            None => 100,
        },
        last_write: match prev {
            Some(p) => if recently_written(p.last_write, now) {
                p.last_write
            } else {
                None
            },
            None => None,
        },
    }
}

pub open spec fn previous_of(ds: Seq<Display>, old: Map<Seq<char>, Entry>, i: int) -> Option<Entry> {
    if first_occurrence(ds, i) && old.contains_key(ds[i].id@) {
        Some(old[ds[i].id@])
    } else {
        None
    }
}

pub open spec fn carried(ds: Seq<Display>, old: Map<Seq<char>, Entry>, now: u64) -> Seq<Entry> {
    Seq::new(ds.len(), |i: int| carried_entry(ds[i], previous_of(ds, old, i), now))
}

/// The identities of the monitors there were that none of the displays `ds` has.
pub open spec fn gone_ids(entries: Seq<Entry>, ds: Seq<Display>) -> Set<Seq<char>> {
    Set::new(
        |k: Seq<char>|
            entries_by_id(entries).contains_key(k) && forall|j: int|
                0 <= j < ds.len() ==> #[trigger] ds[j].id@ != k,
    )
}

/// The identities of the monitors that are gone, in the order of the entries they had, once
/// each: after the first `n` entries, and the identities still to come.
pub open spec fn gone_upto(entries: Seq<Entry>, rest: Set<Seq<char>>, n: int) -> (
    Seq<MonitorId>,
    Set<Seq<char>>,
)
    decreases n,
{
    if n <= 0 {
        (Seq::empty(), rest)
    } else {
        let (ids, r) = gone_upto(entries, rest, n - 1);
        let id = entries[n - 1].display.id;
        if r.contains(id@) {
            (ids.push(id), r.remove(id@))
        } else {
            (ids, r)
        }
    }
}

pub open spec fn clear_calls(ids: Seq<MonitorId>) -> Seq<BackendCall> {
    ids.map_values(|id: MonitorId| BackendCall::ClearSoftware { id: Ghost(id@) })
}

/// Taking the software dimming away from the monitors that are gone, in the order of
/// identities.
pub open spec fn gone_clears(entries: Seq<Entry>, ds: Seq<Display>) -> Seq<BackendCall> {
    clear_calls(
        key_order(gone_upto(entries, gone_ids(entries, ds), entries.len() as int).0),
    )
}

/// The state after the platform found the displays `ds`: the monitors that are gone lose their
/// software dimming, the displays become the entries, ordered by place, and each gets its
/// method.
pub open spec fn refresh_model(m: Model, ds: Seq<Display>, now: u64) -> Model {
    let clears = gone_clears(m.entries, ds);
    assign_model(
        Model {
            entries: sort_by_place(carried(ds, entries_by_id(m.entries), now)),
            calls: m.calls + clears,
            ..m
        },
        now,
    )
}

/// What a batch of commands has asked for so far.
pub struct Collected {
    pub settings: Settings,
    pub pending: Pending,
    pub refresh: bool,
    pub reassign: bool,
    pub turn_off: bool,
    pub shutdown: bool,
}

pub open spec fn cap(v: u8) -> u8 {
    if v <= 100 {
        v
    } else {
        100
    }
}

/// One command of a batch. Nothing after a shutdown counts.
pub open spec fn collect_cmd(c: Collected, entries: Seq<Entry>, cmd: WorkerCmd) -> Collected {
    if c.shutdown {
        c
    } else {
        match cmd {
            WorkerCmd::Refresh => Collected { refresh: true, ..c },
            WorkerCmd::SetBrightness { id, value } => if c.settings.link_levels {
                Collected {
                    pending: set_all_model(c.pending, c.settings, entries, cap(value)),
                    ..c
                }
            } else {
                Collected { pending: pend_insert(c.pending, id, cap(value)), ..c }
            },
            WorkerCmd::SetAll(value) => Collected {
                pending: set_all_model(c.pending, c.settings, entries, cap(value)),
                ..c
            },
            WorkerCmd::Step(delta) => Collected {
                pending: step_model(c.pending, c.settings, entries, delta as int),
                ..c
            },
            WorkerCmd::TurnOffDisplays => Collected { turn_off: true, ..c },
            WorkerCmd::UpdateSettings(settings) => Collected {
                settings: *settings,
                reassign: true,
                ..c
            },
            WorkerCmd::Shutdown => Collected { shutdown: true, ..c },
        }
    }
}

pub open spec fn collect_upto(c: Collected, entries: Seq<Entry>, cmds: Seq<WorkerCmd>, n: int) -> Collected
    decreases n,
{
    if n <= 0 {
        c
    } else {
        collect_cmd(collect_upto(c, entries, cmds, n - 1), entries, cmds[n - 1])
    }
}

/// What a whole batch asks for, starting from the given settings.
pub open spec fn collect(settings: Settings, entries: Seq<Entry>, cmds: Seq<WorkerCmd>) -> Collected {
    collect_upto(
        Collected {
            settings,
            pending: Pending { keys: Seq::empty(), map: Map::empty() },
            refresh: false,
            reassign: false,
            turn_off: false,
            shutdown: false,
        },
        entries,
        cmds,
        cmds.len() as int,
    )
}

/// The state after the pending changes, in their order. `accepted[i]` is whether the platform
/// took the hardware or SDR level of the `i`th change.
pub open spec fn apply_upto(m: Model, p: Pending, accepted: Seq<bool>, n: int, now: u64) -> Model
    decreases n,
{
    if n <= 0 {
        m
    } else {
        let k = p.keys[n - 1];
        apply_model(apply_upto(m, p, accepted, n - 1, now), k@, p.map[k@], accepted[n - 1], now)
    }
}

/// `a` comes before `b` in the order of identities: character by character, and a text before
/// every longer one it begins.
pub open spec fn id_before(a: Seq<char>, b: Seq<char>) -> bool
    decreases a.len(),
{
    if a.len() == 0 {
        b.len() > 0
    } else if b.len() == 0 {
        false
    } else if a[0] != b[0] {
        (a[0] as u32) < (b[0] as u32)
    } else {
        id_before(a.drop_first(), b.drop_first())
    }
}

/// Where an identity goes among identities in order: after every one not after it.
pub open spec fn is_id_pos(s: Seq<MonitorId>, e: MonitorId, k: int) -> bool {
    &&& 0 <= k <= s.len()
    &&& forall|j: int| 0 <= j < k ==> !id_before(e@, #[trigger] s[j]@)
    &&& (k < s.len() ==> id_before(e@, s[k]@))
}

/// The identities in the order of identities, as the pending changes are applied.
pub open spec fn key_order(s: Seq<MonitorId>) -> Seq<MonitorId>
    decreases s.len(),
{
    if s.len() == 0 {
        s
    } else {
        let t = key_order(s.drop_last());
        t.insert(choose|k: int| is_id_pos(t, s.last(), k), s.last())
    }
}

/// The pending changes, to be applied in the order of identities.
pub open spec fn in_id_order(p: Pending) -> Pending {
    Pending { keys: key_order(p.keys), map: p.map }
}

/// The state after a batch: the batch's settings take over; the monitors are looked for again
/// if the batch asked for it, or get their methods again if the settings changed; then the
/// pending changes are applied. `ds` is what the platform found, `accepted` what it took.
pub open spec fn after_batch(
    m: Model,
    c: Collected,
    ds: Seq<Display>,
    accepted: Seq<bool>,
    now: u64,
) -> Model {
    let m1 = Model { settings: c.settings, ..m };
    let m2 = if c.refresh {
        refresh_model(m1, ds, now)
    } else if c.reassign {
        assign_model(m1, now)
    } else {
        m1
    };
    let p = in_id_order(c.pending);
    let m3 = apply_upto(m2, p, accepted, p.keys.len() as int, now);
    if c.turn_off {
        Model {
            calls: m3.calls.push(
                BackendCall::PowerOff {
                    method: m3.settings.power_off_method,
                    ids: Ghost(ids_view(ddc_ids_upto(m3.entries, m3.entries.len() as int))),
                },
            ),
            ..m3
        }
    } else {
        m3
    }
}

/// The identities of the monitors with DDC/CI among the first `n`, in order.
pub open spec fn ddc_ids_upto(entries: Seq<Entry>, n: int) -> Seq<MonitorId>
    decreases n,
{
    if n <= 0 {
        Seq::empty()
    } else {
        let u = ddc_ids_upto(entries, n - 1);
        if entries[n - 1].display.hardware matches Some((HardwareKind::Ddc, _)) {
            u.push(entries[n - 1].display.id)
        } else {
            u
        }
    }
}

proof fn lemma_apply_prefix(m: Model, p: Pending, a: Seq<bool>, b: Seq<bool>, n: int, now: u64)
    requires
        0 <= n <= a.len(),
        n <= b.len(),
        a.take(n) == b.take(n),
    ensures
        apply_upto(m, p, a, n, now) == apply_upto(m, p, b, n, now),
    decreases n,
{
    if n > 0 {
        assert(a.take(n - 1) == a.take(n).take(n - 1));
        assert(b.take(n - 1) == b.take(n).take(n - 1));
        assert(a[n - 1] == a.take(n)[n - 1]);
        assert(b[n - 1] == b.take(n)[n - 1]);
        lemma_apply_prefix(m, p, a, b, n - 1, now);
    }
}

proof fn lemma_first_unique(entries: Seq<Entry>, id: Seq<char>, j: int)
    requires
        first_with_id(entries, id, j),
    ensures
        has_entry(entries, id),
        (choose|k: int| first_with_id(entries, id, k)) == j,
{
    assert(entries[j].display.id@ == id);
    let k = choose|k: int| first_with_id(entries, id, k);
    assert(first_with_id(entries, id, k));
    if k < j {
        assert(entries[k].display.id@ != id);
    } else if k > j {
        assert(entries[j].display.id@ != id);
    }
}

impl<B: Backend> Worker<B> {
    pub open spec fn model(&self) -> Model {
        Model {
            settings: self.settings,
            levels: self.state.software_levels@,
            dirty: self.state_dirty_since,
            entries: self.entries@,
            calls: self.backend.calls(),
        }
    }

    pub fn new(backend: B, settings: Settings, state: State) -> (r: Self)
        ensures
            r.backend == backend,
            r.settings == settings,
            r.state == state,
            r.state_dirty_since is None,
            r.entries@.len() == 0,
    {
        Worker { backend, settings, state, state_dirty_since: None, entries: Vec::new() }
    }

    /// How the display should be dimmed under the current settings.
    pub fn method_for(&self, display: &Display) -> (r: Method)
        ensures
            r == spec_method_for(self.settings, *display),
    {
        let ms = self.settings.monitor(&display.id);
        if !ms.force_software {
            if display.hdr && display.sdr.is_some() && self.settings.hdr_sdr_brightness {
                return Method::Sdr;
            }
            match display.hardware {
                Some((HardwareKind::Ddc, _)) => {
                    return Method::Ddc;
                },
                Some((HardwareKind::Wmi, _)) => {
                    return Method::Native;
                },
                None => {},
            }
        }
        if !self.settings.software_fallback && !ms.force_software {
            return Method::Unsupported;
        }
        match self.settings.software_dim_mode {
            SoftwareDimMode::Gamma if !display.hdr => Method::Gamma,
            _ => Method::Overlay,
        }
    }

    /// Whether the panel shows the entry.
    pub fn visible(&self, entry: &Entry) -> (r: bool)
        ensures
            r == spec_visible(self.settings, *entry),
    {
        !entry.method.same(Method::Unsupported) && !self.settings.monitor(&entry.display.id).hidden
    }

    /// Dims the monitor in software to the slider position, and remembers the position.
    pub fn write_software(&mut self, id: &MonitorId, method: Method, value: u8, now: u64)
        ensures
            final(self).model() == software_dimmed(old(self).model(), id@, method, value, now),
    {
        let mode = match method {
            Method::Gamma => SoftwareDimMode::Gamma,
            _ => SoftwareDimMode::Overlay,
        };
        let ms = self.settings.monitor(id);
        let level = slider_to_level(value, ms.min, ms.max);
        let _ = self.backend.set_software(id, mode, level);
        let unchanged = match self.state.software_levels.get(id) {
            Some(v) => *v == value,
            None => false,
        };
        if !unchanged {
            self.state.software_levels.insert(id.clone(), value);
            if self.state_dirty_since.is_none() {
                self.state_dirty_since = Some(now);
            }
        }
    }

    /// Carries out a batch of commands. Says whether to keep running, and what to tell the
    /// panel if anything it shows may have changed.
    pub fn process(&mut self, batch: Vec<WorkerCmd>, now: u64) -> (r: (bool, Option<Vec<MonitorInfo>>))
        ensures
            ({
                let c = collect(old(self).settings, old(self).entries@, batch@);
                &&& r.0 == !c.shutdown
                &&& exists|ds: Seq<Display>, accepted: Seq<bool>|
                    final(self).model() == after_batch(old(self).model(), c, ds, accepted, now)
                &&& (r.1 is Some) == (c.refresh || c.reassign || c.pending.keys.len() > 0)
            }),
            r.1 matches Some(v) ==> {
                &&& v@.len() == final(self).entries@.len()
                &&& forall|i: int|
                    0 <= i < v@.len() ==> #[trigger] v@[i] == spec_info(
                        final(self).settings,
                        final(self).entries@[i],
                    )
            },
    {
        let ghost m0 = self.model();
        let ghost cmds = batch@;
        let ghost entries0 = self.entries@;
        let ghost c0 = Collected {
            settings: self.settings,
            pending: Pending { keys: Seq::empty(), map: Map::empty() },
            refresh: false,
            reassign: false,
            turn_off: false,
            shutdown: false,
        };
        let mut pending: IdMap<u8> = IdMap::new();
        let mut refresh = false;
        let mut reassign = false;
        let mut turn_off = false;
        let mut shutdown = false;
        assert(pending.key_seq() =~= Seq::<MonitorId>::empty());
        let mut batch = batch;
        let n = batch.len();
        let mut i: usize = 0;
        while i < n
            invariant
                n == cmds.len(),
                i <= n,
                batch@ == cmds.skip(i as int),
                self.entries@ == entries0,
                self.state.software_levels@ == m0.levels,
                self.state_dirty_since == m0.dirty,
                self.backend.calls() == m0.calls,
                collect_upto(c0, entries0, cmds, i as int) == (Collected {
                    settings: self.settings,
                    pending: pending_of(pending),
                    refresh,
                    reassign,
                    turn_off,
                    shutdown,
                }),
            decreases n - i,
        {
            assert(batch@[0] == cmds[i as int]);
            let cmd = batch.remove(0);
            assert(batch@ == cmds.skip(i + 1));
            i = i + 1;
            if !shutdown {
                match cmd {
                    WorkerCmd::Refresh => {
                        refresh = true;
                    },
                    WorkerCmd::SetBrightness { id, value } => {
                        let value = if value <= 100 {
                            value
                        } else {
                            100
                        };
                        if self.settings.link_levels {
                            self.set_all_pending(&mut pending, value);
                        } else {
                            pending.insert(id, value);
                        }
                    },
                    WorkerCmd::SetAll(value) => {
                        let value = if value <= 100 {
                            value
                        } else {
                            100
                        };
                        self.set_all_pending(&mut pending, value);
                    },
                    WorkerCmd::Step(delta) => {
                        self.step_pending(&mut pending, delta);
                    },
                    WorkerCmd::TurnOffDisplays => {
                        turn_off = true;
                    },
                    WorkerCmd::UpdateSettings(settings) => {
                        self.settings = *settings;
                        reassign = true;
                    },
                    // still apply what came before it: `--set` sends its value right before this
                    WorkerCmd::Shutdown => {
                        shutdown = true;
                    },
                }
            }
        }
        let ghost c = collect_upto(c0, entries0, cmds, n as int);
        let ghost m1 = self.model();
        assert(m1 == (Model { settings: c.settings, ..m0 }));
        let ghost mut ds: Seq<Display> = Seq::empty();
        if refresh {
            self.refresh(now);
            proof {
                ds = choose|ds: Seq<Display>| self.model() == refresh_model(m1, ds, now);
            }
        } else if reassign {
            self.assign_methods(now);
        }
        let ghost m2 = self.model();
        let ghost p0 = pending_of(pending);
        let k = pending.len();
        let mut keys: Vec<MonitorId> = Vec::new();
        for i in 0..k
            invariant
                k == p0.keys.len(),
                p0 == pending_of(pending),
                keys@ == p0.keys.take(i as int),
                forall|w: int| 0 <= w < i ==> pending@.contains_key((#[trigger] keys@[w])@),
                self.model() == m2,
        {
            keys.push(pending.key_at(i).clone());
            assert(keys@ =~= p0.keys.take(i + 1));
        }
        assert(keys@ =~= p0.keys);
        let order = id_order(&keys);
        proof {
            lemma_key_order(keys@);
            assert forall|j: int| 0 <= j < order@.len() implies pending@.contains_key(
                (#[trigger] order@[j])@,
            ) by {
                assert(keys@.contains(order@[j]));
                let w = choose|w: int| 0 <= w < keys@.len() && keys@[w] == order@[j];
                assert(pending@.contains_key(keys@[w]@));
            }
        }
        let ghost p = in_id_order(p0);
        let ghost mut accepted: Seq<bool> = Seq::empty();
        for j in 0..order.len()
            invariant
                p.keys == order@,
                p.map == pending@,
                forall|i: int| 0 <= i < order@.len() ==> pending@.contains_key((#[trigger] order@[i])@),
                accepted.len() == j,
                self.model() == apply_upto(m2, p, accepted, j as int, now),
        {
            let value = match pending.get(&order[j]) {
                Some(v) => *v,
                None => 0,
            };
            let taken = self.apply(&order[j], value, now);
            proof {
                let next = accepted.push(taken);
                assert(next.take(j as int) == accepted.take(j as int));
                lemma_apply_prefix(m2, p, next, accepted, j as int, now);
                accepted = next;
            }
        }
        assert(p.keys.len() == order@.len());
        let ghost m3 = self.model();
        let snapshot = if refresh || reassign || k > 0 {
            Some(self.emit())
        } else {
            None
        };
        if turn_off {
            let ddc = self.ddc_ids();
            self.backend.power_off(self.settings.power_off_method, ddc.as_slice());
            assert(ddc@ == ddc_ids_upto(m3.entries, m3.entries.len() as int));
        }
        assert(self.model() == after_batch(m0, c, ds, accepted, now));
        (!shutdown, snapshot)
    }

    /// The identities of the monitors with DDC/CI, in order.
    pub fn ddc_ids(&self) -> (r: Vec<MonitorId>)
        ensures
            r@ == ddc_ids_upto(self.entries@, self.entries@.len() as int),
    {
        let mut ids: Vec<MonitorId> = Vec::new();
        let n = self.entries.len();
        for i in 0..n
            invariant
                n == self.entries@.len(),
                ids@ == ddc_ids_upto(self.entries@, i as int),
        {
            match self.entries[i].display.hardware {
                Some((HardwareKind::Ddc, _)) => {
                    ids.push(self.entries[i].display.id.clone());
                },
                _ => {},
            }
        }
        ids
    }

    /// Finds the monitors for the first time; what to show the panel.
    pub fn start(&mut self, now: u64) -> (r: Vec<MonitorInfo>)
        ensures
            exists|ds: Seq<Display>| final(self).model() == refresh_model(old(self).model(), ds, now),
            r@.len() == final(self).entries@.len(),
            forall|i: int|
                0 <= i < r@.len() ==> #[trigger] r@[i] == spec_info(
                    final(self).settings,
                    final(self).entries@[i],
                ),
    {
        self.refresh(now);
        self.emit()
    }

    /// How long to wait for the next command: until the unsaved software levels are due to be
    /// saved, or else a long while.
    pub fn wait_time(&self, now: u64) -> (r: u64)
        ensures
            r == match self.state_dirty_since {
                Some(since) => if elapsed(since, now) >= STATE_SAVE_DELAY_MS {
                    0
                } else {
                    (STATE_SAVE_DELAY_MS - elapsed(since, now)) as u64
                },
                None => IDLE_WAIT_MS,
            },
    {
        match self.state_dirty_since {
            Some(since) => {
                let passed = if now >= since {
                    now - since
                } else {
                    0
                };
                if passed >= STATE_SAVE_DELAY_MS {
                    0
                } else {
                    STATE_SAVE_DELAY_MS - passed
                }
            },
            None => IDLE_WAIT_MS,
        }
    }

    /// Marks the software levels as saved. Says whether they had changes to save.
    pub fn save_state(&mut self) -> (r: bool)
        ensures
            r == (old(self).state_dirty_since is Some),
            final(self).model() == (Model { dirty: None, ..old(self).model() }),
            final(self).state == old(self).state,
    {
        let dirty = self.state_dirty_since.is_some();
        self.state_dirty_since = None;
        dirty
    }

    /// Takes all software dimming away before stopping. Says whether the software levels have
    /// changes to save.
    pub fn finish(&mut self) -> (r: bool)
        ensures
            r == (old(self).state_dirty_since is Some),
            final(self).model() == (Model {
                dirty: None,
                calls: old(self).model().calls.push(BackendCall::ClearAllSoftware),
                ..old(self).model()
            }),
            final(self).state == old(self).state,
    {
        self.backend.clear_all_software();
        self.save_state()
    }

    /// Gives every monitor the method the current settings give it.
    pub fn assign_methods(&mut self, now: u64)
        ensures
            final(self).model() == assign_model(old(self).model(), now),
    {
        let ghost m0 = self.model();
        let n = self.entries.len();
        for i in 0..n
            invariant
                n == self.entries@.len(),
                n == m0.entries.len(),
                self.model() == assign_upto(m0, i as int, now),
        {
            proof {
                lemma_assign_keeps(m0, i as int, now);
            }
            let ghost before = self.model();
            let new = self.method_for(&self.entries[i].display);
            let mut entry = self.entries[i].clone();
            let old = entry.method;
            entry.method = new;
            let id = entry.display.id.clone();
            if old.is_software() && !old.same(new) {
                self.backend.clear_software(&id);
            }
            if new.is_software() {
                if !old.is_software() {
                    entry.value = match self.state.software_levels.get(&id) {
                        Some(v) => *v,
                        None => 100,
                    };
                }
                let value = entry.value;
                self.entries.set(i, entry);
                self.write_software(&id, new, value, now);
            } else if !old.same(new) {
                let recent = written_recently(entry.last_write, now);
                match reading(&entry.display, new) {
                    Some(percent) => {
                        if !recent {
                            let ms = self.settings.monitor(&id);
                            entry.value = level_to_slider(percent, ms.min, ms.max);
                        }
                    },
                    None => {},
                }
                self.entries.set(i, entry);
            } else {
                self.entries.set(i, entry);
            }
            assert(self.model() == assign_step(before, i as int, now));
        }
    }

    /// Takes the displays the platform found as the new list of monitors.
    pub fn refresh_with(&mut self, displays: Vec<Display>, now: u64)
        ensures
            final(self).model() == refresh_model(old(self).model(), displays@, now),
    {
        let ghost m0 = self.model();
        // the entries there were, by identity
        let mut old: IdMap<Entry> = IdMap::new();
        let n_old = self.entries.len();
        for i in 0..n_old
            invariant
                n_old == self.entries@.len(),
                self.model() == m0,
                old@ == entries_by_id(self.entries@.take(i as int)),
        {
            old.insert(self.entries[i].display.id.clone(), self.entries[i].clone());
            assert(self.entries@.take(i + 1).drop_last() == self.entries@.take(i as int));
        }
        assert(self.entries@.take(n_old as int) == self.entries@);
        let ghost by_id = old@;
        let ghost ds = displays@;
        let ghost target = carried(ds, by_id, now);
        let mut fresh: Vec<Entry> = Vec::new();
        let n = displays.len();
        for i in 0..n
            invariant
                n == ds.len(),
                displays@ == ds,
                target == carried(ds, by_id, now),
                fresh@ == target.take(i as int),
                forall|k: Seq<char>| #[trigger]
                    old@.contains_key(k) == (by_id.contains_key(k) && forall|j: int|
                        0 <= j < i ==> #[trigger] ds[j].id@ != k),
                forall|k: Seq<char>| #[trigger] old@.contains_key(k) ==> old@[k] == by_id[k],
        {
            let d = displays[i].clone();
            proof {
                if first_occurrence(ds, i as int) {
                    assert(old@.contains_key(ds[i as int].id@) == by_id.contains_key(ds[i as int].id@));
                } else {
                    let j = choose|j: int| 0 <= j < i && #[trigger] ds[j].id@ == ds[i as int].id@;
                    assert(ds[j].id@ == ds[i as int].id@);
                    assert(!old@.contains_key(ds[i as int].id@));
                }
            }
            let previous = old.remove(&d.id);
            let entry = match previous {
                Some(p) => {
                    let recent = written_recently(p.last_write, now);
                    Entry {
                        display: d,
                        method: Method::Unsupported,
                        value: p.value,
                        last_write: if recent {
                            p.last_write
                        } else {
                            None
                        },
                    }
                },
                None => Entry { display: d, method: Method::Unsupported, value: 100, last_write: None },
            };
            assert(entry == target[i as int]);
            fresh.push(entry);
            assert(fresh@ == target.take(i + 1));
        }
        assert(fresh@ == target);
        // what is gone loses its dimming, in the order of identities
        let ghost gone = gone_ids(m0.entries, ds);
        assert(old@.dom() =~= gone);
        let mut gone_list: Vec<MonitorId> = Vec::new();
        for i in 0..n_old
            invariant
                n_old == m0.entries.len(),
                self.model() == m0,
                self.entries@ == m0.entries,
                old@.dom() == gone_upto(m0.entries, gone, i as int).1,
                gone_list@ == gone_upto(m0.entries, gone, i as int).0,
        {
            let id = self.entries[i].display.id.clone();
            if old.contains(&id) {
                let _ = old.remove(&id);
                assert(old@.dom() =~= gone_upto(m0.entries, gone, i as int).1.remove(id@));
                gone_list.push(id);
            }
        }
        let order = id_order(&gone_list);
        for j in 0..order.len()
            invariant
                self.entries@ == m0.entries,
                self.settings == m0.settings,
                self.state.software_levels@ == m0.levels,
                self.state_dirty_since == m0.dirty,
                self.backend.calls() == m0.calls + clear_calls(order@.take(j as int)),
        {
            self.backend.clear_software(&order[j]);
            assert(clear_calls(order@.take(j + 1)) =~= clear_calls(order@.take(j as int)).push(
                BackendCall::ClearSoftware { id: Ghost(order@[j as int]@) },
            ));
        }
        assert(order@.take(order@.len() as int) =~= order@);
        let ghost clears = gone_clears(m0.entries, ds);
        let sorted = sort_entries(fresh);
        self.entries = sorted;
        assert(self.model() == (Model {
            entries: sort_by_place(target),
            calls: m0.calls + clears,
            ..m0
        }));
        self.assign_methods(now);
    }

    /// Asks the platform for its displays and takes them as the new list of monitors.
    pub fn refresh(&mut self, now: u64)
        ensures
            exists|ds: Seq<Display>| final(self).model() == refresh_model(old(self).model(), ds, now),
    {
        let displays = self.backend.enumerate();
        let ghost ds = displays@;
        self.refresh_with(displays, now);
    }

    /// Every visible monitor to the slider position.
    pub fn set_all_pending(&self, pending: &mut IdMap<u8>, value: u8)
        ensures
            pending_of(*final(pending)) == set_all_model(
                pending_of(*old(pending)),
                self.settings,
                self.entries@,
                value,
            ),
    {
        let n = self.entries.len();
        let ghost p0 = pending_of(*pending);
        for i in 0..n
            invariant
                n == self.entries@.len(),
                pending_of(*pending) == insert_all(
                    p0,
                    const_updates(self.settings, self.entries@, value, i as int),
                ),
        {
            let ghost u = const_updates(self.settings, self.entries@, value, i as int);
            if self.visible(&self.entries[i]) {
                pending.insert(self.entries[i].display.id.clone(), value);
                proof {
                    let u2 = u.push((self.entries@[i as int].display.id, value));
                    assert(u2.drop_last() == u);
                }
            }
        }
    }

    /// The first monitor the panel shows.
    pub fn first_visible_entry(&self) -> (r: Option<usize>)
        ensures
            match r {
                Some(j) => first_visible(self.settings, self.entries@, j as int),
                None => !any_visible(self.settings, self.entries@),
            },
    {
        let n = self.entries.len();
        for j in 0..n
            invariant
                n == self.entries@.len(),
                forall|k: int| 0 <= k < j ==> !spec_visible(self.settings, #[trigger] self.entries@[k]),
        {
            if self.visible(&self.entries[j]) {
                return Some(j);
            }
        }
        None
    }

    /// Steps the visible monitors up or down.
    pub fn step_pending(&self, pending: &mut IdMap<u8>, delta: i16)
        ensures
            pending_of(*final(pending)) == step_model(
                pending_of(*old(pending)),
                self.settings,
                self.entries@,
                delta as int,
            ),
    {
        let ghost p0 = pending_of(*pending);
        let n = self.entries.len();
        if self.settings.link_levels {
            match self.first_visible_entry() {
                None => {},
                Some(j) => {
                    proof {
                        lemma_first_visible_unique(self.settings, self.entries@, j as int);
                    }
                    let base = current_value(pending, &self.entries[j]);
                    let value = step_value(base, delta);
                    self.set_all_pending(pending, value);
                },
            }
        } else {
            let mut updates: Vec<(MonitorId, u8)> = Vec::new();
            for i in 0..n
                invariant
                    n == self.entries@.len(),
                    pending_of(*pending) == p0,
                    updates@ == step_updates(p0, self.settings, self.entries@, delta as int, i as int),
            {
                if self.visible(&self.entries[i]) {
                    let base = current_value(pending, &self.entries[i]);
                    updates.push((self.entries[i].display.id.clone(), step_value(base, delta)));
                }
            }
            let m = updates.len();
            for k in 0..m
                invariant
                    m == updates@.len(),
                    updates@ == step_updates(p0, self.settings, self.entries@, delta as int, n as int),
                    pending_of(*pending) == insert_all(p0, updates@.take(k as int)),
            {
                pending.insert(updates[k].0.clone(), updates[k].1);
                assert(updates@.take(k + 1).drop_last() == updates@.take(k as int));
            }
            assert(updates@.take(m as int) == updates@);
        }
    }

    /// The first entry with the identity.
    pub fn find_entry(&self, id: &MonitorId) -> (r: Option<usize>)
        ensures
            match r {
                Some(j) => first_with_id(self.entries@, id@, j as int),
                None => !has_entry(self.entries@, id@),
            },
    {
        let n = self.entries.len();
        let mut j: usize = 0;
        while j < n
            invariant
                n == self.entries@.len(),
                j <= n,
                forall|k: int| 0 <= k < j ==> #[trigger] self.entries@[k].display.id@ != id@,
            decreases n - j,
        {
            if self.entries[j].display.id.same(id) {
                return Some(j);
            }
            j = j + 1;
        }
        None
    }

    /// Sets the slider of the first monitor with the identity, and passes the level on to the
    /// platform in the monitor's way. Says whether the platform took a hardware or SDR level.
    pub fn apply(&mut self, id: &MonitorId, value: u8, now: u64) -> (accepted: bool)
        ensures
            final(self).model() == apply_model(old(self).model(), id@, value, accepted, now),
    {
        let j = match self.find_entry(id) {
            Some(j) => j,
            None => {
                return false;
            },
        };
        proof {
            lemma_first_unique(self.entries@, id@, j as int);
        }
        let method = self.entries[j].method;
        let ms = self.settings.monitor(id);
        let mut entry = self.entries[j].clone();
        entry.value = value;
        entry.last_write = Some(now);
        match method {
            Method::Ddc | Method::Native => {
                let level = slider_to_level(value, ms.min, ms.max);
                let accepted = match self.backend.set_hardware(id, level) {
                    Ok(()) => true,
                    Err(_) => false,
                };
                if accepted {
                    if let Some((kind, _)) = entry.display.hardware {
                        entry.display.hardware = Some((kind, level));
                    }
                }
                self.entries.set(j, entry);
                accepted
            },
            Method::Sdr => {
                let level = slider_to_level(value, ms.min, ms.max);
                let accepted = match self.backend.set_sdr(id, level) {
                    Ok(()) => true,
                    Err(_) => false,
                };
                if accepted {
                    entry.display.sdr = Some(level);
                }
                self.entries.set(j, entry);
                accepted
            },
            Method::Overlay | Method::Gamma => {
                self.entries.set(j, entry);
                self.write_software(id, method, value, now);
                false
            },
            Method::Unsupported => {
                self.entries.set(j, entry);
                false
            },
        }
    }

    /// What the panel is told of the monitors, in order.
    pub fn emit(&self) -> (r: Vec<MonitorInfo>)
        ensures
            r@.len() == self.entries@.len(),
            forall|i: int|
                0 <= i < r@.len() ==> #[trigger] r@[i] == spec_info(
                    self.settings,
                    self.entries@[i],
                ),
    {
        let mut out: Vec<MonitorInfo> = Vec::new();
        let n = self.entries.len();
        for i in 0..n
            invariant
                n == self.entries@.len(),
                out@.len() == i,
                forall|k: int|
                    0 <= k < i ==> #[trigger] out@[k] == spec_info(self.settings, self.entries@[k]),
        {
            let e = &self.entries[i];
            let ms = self.settings.monitor(&e.display.id);
            let name = match &ms.name {
                Some(n) => if blank(n.as_str()) {
                    e.display.name.clone()
                } else {
                    n.clone()
                },
                None => e.display.name.clone(),
            };
            out.push(
                MonitorInfo {
                    id: e.display.id.clone(),
                    name,
                    hardware_name: e.display.name.clone(),
                    method: e.method,
                    brightness: e.value,
                    internal: e.display.internal,
                    hidden: ms.hidden,
                    has_hardware: e.display.hardware.is_some() || e.display.sdr.is_some(),
                    hdr: e.display.hdr,
                },
            );
        }
        out
    }
}

/// Whether a write happened so recently that the monitor may still report the old level.
pub fn written_recently(last: Option<u64>, now: u64) -> (r: bool)
    ensures
        r == recently_written(last, now),
{
    match last {
        Some(t) => {
            let elapsed = if now >= t {
                now - t
            } else {
                0
            };
            elapsed < RECENT_WRITE_MS
        },
        None => false,
    }
}

/// Where an entry goes among entries sorted by place.
fn insert_position(sorted: &Vec<Entry>, e: &Entry) -> (r: usize)
    ensures
        is_insert_pos(sorted@, *e, r as int),
{
    let n = sorted.len();
    let mut k: usize = 0;
    while k < n
        invariant
            n == sorted@.len(),
            k <= n,
            forall|j: int| 0 <= j < k ==> placed_before_or_with(#[trigger] sorted@[j], *e),
        decreases n - k,
    {
        let s = &sorted[k];
        let before = s.display.bounds.x < e.display.bounds.x || (s.display.bounds.x
            == e.display.bounds.x && s.display.bounds.y <= e.display.bounds.y);
        if !before {
            return k;
        }
        k = k + 1;
    }
    k
}

proof fn lemma_insert_pos_unique(s: Seq<Entry>, e: Entry, k: int)
    requires
        is_insert_pos(s, e, k),
    ensures
        (choose|j: int| is_insert_pos(s, e, j)) == k,
{
    let j = choose|j: int| is_insert_pos(s, e, j);
    assert(is_insert_pos(s, e, j));
    if j < k {
        assert(placed_before_or_with(s[j], e));
    } else if j > k {
        assert(placed_before_or_with(s[k], e));
    }
}

/// Sorts the entries by place, keeping their order among entries at the same place.
pub fn sort_entries(entries: Vec<Entry>) -> (r: Vec<Entry>)
    ensures
        r@ == sort_by_place(entries@),
{
    let mut sorted: Vec<Entry> = Vec::new();
    let n = entries.len();
    for i in 0..n
        invariant
            n == entries@.len(),
            sorted@ == sort_by_place(entries@.take(i as int)),
    {
        let e = entries[i].clone();
        let k = insert_position(&sorted, &e);
        proof {
            lemma_insert_pos_unique(sorted@, e, k as int);
            assert(entries@.take(i + 1).drop_last() == entries@.take(i as int));
            assert(entries@.take(i + 1).last() == e);
        }
        sorted.insert(k, e);
    }
    assert(entries@.take(n as int) == entries@);
    sorted
}

proof fn lemma_first_visible_unique(s: Settings, entries: Seq<Entry>, j: int)
    requires
        first_visible(s, entries, j),
    ensures
        any_visible(s, entries),
        (choose|k: int| first_visible(s, entries, k)) == j,
{
    assert(spec_visible(s, entries[j]));
    let k = choose|k: int| first_visible(s, entries, k);
    assert(first_visible(s, entries, k));
    if k < j {
        assert(!spec_visible(s, entries[k]));
    } else if k > j {
        assert(!spec_visible(s, entries[j]));
    }
}

/// The slider position a monitor has in the batch so far.
fn current_value(pending: &IdMap<u8>, e: &Entry) -> (r: u8)
    ensures
        r == current(pending_of(*pending), *e),
{
    match pending.get(&e.display.id) {
        Some(v) => *v,
        None => e.value,
    }
}

/// A slider position moved by a step, held to 0 to 100.
pub fn step_value(base: u8, delta: i16) -> (r: u8)
    ensures
        r == stepped(base as int, delta as int),
        r <= 100,
{
    let t: i32 = base as i32 + delta as i32;
    if t < 0 {
        0
    } else if t > 100 {
        100
    } else {
        t as u8
    }
}

/// The level the method can read back from the display, in percent.
pub fn reading(display: &Display, method: Method) -> (r: Option<u8>)
    ensures
        r == spec_reading(*display, method),
{
    match method {
        Method::Ddc | Method::Native => match display.hardware {
            Some((_, percent)) => Some(percent),
            None => None,
        },
        Method::Sdr => display.sdr,
        Method::Overlay | Method::Gamma | Method::Unsupported => None,
    }
}

proof fn lemma_id_pos_from(t: Seq<MonitorId>, e: MonitorId, i: int)
    requires
        0 <= i <= t.len(),
        forall|j: int| 0 <= j < i ==> !id_before(e@, #[trigger] t[j]@),
    ensures
        exists|k: int| is_id_pos(t, e, k),
    decreases t.len() - i,
{
    if i == t.len() || id_before(e@, t[i]@) {
        assert(is_id_pos(t, e, i));
    } else {
        lemma_id_pos_from(t, e, i + 1);
    }
}

proof fn lemma_id_pos_unique(t: Seq<MonitorId>, e: MonitorId, k: int)
    requires
        is_id_pos(t, e, k),
    ensures
        (choose|j: int| is_id_pos(t, e, j)) == k,
{
    let j = choose|j: int| is_id_pos(t, e, j);
    assert(is_id_pos(t, e, j));
    if j < k {
        assert(!id_before(e@, t[j]@));
    } else if j > k {
        assert(!id_before(e@, t[k]@));
    }
}

/// Ordering keeps the identities: the same number, each one of the given.
proof fn lemma_key_order(s: Seq<MonitorId>)
    ensures
        key_order(s).len() == s.len(),
        forall|i: int| 0 <= i < key_order(s).len() ==> s.contains(#[trigger] key_order(s)[i]),
    decreases s.len(),
{
    if s.len() > 0 {
        let d = s.drop_last();
        lemma_key_order(d);
        let t = key_order(d);
        lemma_id_pos_from(t, s.last(), 0);
        let k = choose|k: int| is_id_pos(t, s.last(), k);
        assert forall|i: int| 0 <= i < key_order(s).len() implies s.contains(#[trigger] key_order(s)[i]) by {
            if i < k {
                assert(key_order(s)[i] == t[i]);
                assert(d.contains(t[i]));
                let w = choose|w: int| 0 <= w < d.len() && d[w] == t[i];
                assert(s[w] == t[i]);
            } else if i == k {
                assert(s[s.len() - 1] == s.last());
            } else {
                assert(key_order(s)[i] == t[i - 1]);
                assert(d.contains(t[i - 1]));
                let w = choose|w: int| 0 <= w < d.len() && d[w] == t[i - 1];
                assert(s[w] == t[i - 1]);
            }
        }
    }
}

/// Whether one identity comes before another in the order of identities.
fn comes_before(a: &MonitorId, b: &MonitorId) -> (r: bool)
    ensures
        r == id_before(a@, b@),
{
    let sa = a.0.as_str();
    let sb = b.0.as_str();
    let na = sa.unicode_len();
    let nb = sb.unicode_len();
    let mut i: usize = 0;
    assert(a@.skip(0) =~= a@);
    assert(b@.skip(0) =~= b@);
    while i < na && i < nb
        invariant
            i <= na,
            i <= nb,
            na == a@.len(),
            nb == b@.len(),
            sa@ == a@,
            sb@ == b@,
            id_before(a@, b@) == id_before(a@.skip(i as int), b@.skip(i as int)),
        decreases na - i,
    {
        let ca = sa.get_char(i);
        let cb = sb.get_char(i);
        assert(a@.skip(i as int)[0] == ca);
        assert(b@.skip(i as int)[0] == cb);
        if ca != cb {
            return (ca as u32) < (cb as u32);
        }
        assert(a@.skip(i as int).drop_first() =~= a@.skip(i + 1));
        assert(b@.skip(i as int).drop_first() =~= b@.skip(i + 1));
        i = i + 1;
    }
    assert(a@.skip(i as int).len() == na - i);
    assert(b@.skip(i as int).len() == nb - i);
    i == na && i < nb
}

/// The identities in the order of identities.
fn id_order(keys: &Vec<MonitorId>) -> (r: Vec<MonitorId>)
    ensures
        r@ == key_order(keys@),
{
    let mut sorted: Vec<MonitorId> = Vec::new();
    let n = keys.len();
    for i in 0..n
        invariant
            n == keys@.len(),
            sorted@ == key_order(keys@.take(i as int)),
    {
        let e = keys[i].clone();
        let m = sorted.len();
        let mut k: usize = 0;
        let mut found = false;
        while k < m && !found
            invariant
                m == sorted@.len(),
                k <= m,
                forall|j: int| 0 <= j < k ==> !id_before(e@, #[trigger] sorted@[j]@),
                found ==> k < m && id_before(e@, sorted@[k as int]@),
            decreases m - k + if found { 0int } else { 1int },
        {
            if comes_before(&e, &sorted[k]) {
                found = true;
            } else {
                k = k + 1;
            }
        }
        proof {
            assert(is_id_pos(sorted@, e, k as int));
            lemma_id_pos_unique(sorted@, e, k as int);
            assert(keys@.take(i + 1).drop_last() == keys@.take(i as int));
            assert(keys@.take(i + 1).last() == e);
        }
        sorted.insert(k, e);
    }
    assert(keys@.take(n as int) == keys@);
    sorted
}

} // verus!

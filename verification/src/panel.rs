//! What the panel decides apart from drawing: the monitors it shows while the worker catches
//! up, the tray tooltip, and how scrolling, shortcuts and clicks turn into commands.

use vstd::prelude::*;
use vstd::string::StrSliceExecFns;

use crate::id_map::IdMap;
use crate::model::{Method, MonitorId, MonitorInfo, Rect};
use crate::protocol::WorkerCmd;
use crate::settings::Settings;
use crate::text::push_char;
use crate::worker::elapsed;

verus! {

/// A slider the user moved keeps its own position this long against what the worker reports.
pub const LOCAL_EDIT_HOLD_MS: u64 = 1500;

/// A click that closes the panel does not open it again right away.
pub const REOPEN_GUARD_MS: u64 = 300;

/// Opening the panel looks for monitors again once this long has passed.
pub const REFRESH_ON_OPEN_MS: u64 = 5000;

/// Wheel units of one notch.
pub const WHEEL_DELTA: i32 = 120;

/// Windows cuts tray tooltips at 127 characters.
pub const TOOLTIP_MAX: usize = 127;

/// The page the panel shows.
#[derive(Clone, Copy, Debug, PartialEq, Eq)]
pub enum Page {
    Monitors,
    Settings,
}

/// What a keyboard shortcut does.
#[derive(Clone, Copy, Debug, PartialEq, Eq)]
pub enum HotkeyAction {
    BrightnessUp,
    BrightnessDown,
    TurnOff,
}

/// The setting that holds a shortcut's keys.
pub fn hotkey_field(settings: &mut Settings, action: HotkeyAction) -> (r: &mut String)
    ensures
        *r == match action {
            HotkeyAction::BrightnessUp => old(settings).hotkey_up,
            HotkeyAction::BrightnessDown => old(settings).hotkey_down,
            HotkeyAction::TurnOff => old(settings).hotkey_off,
        },
        *final(settings) == match action {
            HotkeyAction::BrightnessUp => Settings { hotkey_up: *final(r), ..*old(settings) },
            HotkeyAction::BrightnessDown => Settings { hotkey_down: *final(r), ..*old(settings) },
            HotkeyAction::TurnOff => Settings { hotkey_off: *final(r), ..*old(settings) },
        },
{
    match action {
        HotkeyAction::BrightnessUp => &mut settings.hotkey_up,
        HotkeyAction::BrightnessDown => &mut settings.hotkey_down,
        HotkeyAction::TurnOff => &mut settings.hotkey_off,
    }
}

/// What a click on the tray icon does to the panel.
#[derive(Clone, Copy, Debug, PartialEq, Eq)]
pub enum FlyoutAction {
    Show,
    Hide,
    /// The click is what just took the focus away from the panel and closed it.
    Ignore,
}

/// The command a keyboard shortcut sends; a step is at least 1.
pub fn hotkey_command(action: HotkeyAction, hotkey_step: u8) -> (r: WorkerCmd)
    ensures
        r == match action {
            HotkeyAction::BrightnessUp => WorkerCmd::Step(if hotkey_step == 0 {
                1
            } else {
                hotkey_step as i16
            }),
            HotkeyAction::BrightnessDown => WorkerCmd::Step(if hotkey_step == 0 {
                -1i16
            } else {
                (-(hotkey_step as int)) as i16
            }),
            HotkeyAction::TurnOff => WorkerCmd::TurnOffDisplays,
        },
{
    let step: i16 = if hotkey_step == 0 {
        1
    } else {
        hotkey_step as i16
    };
    match action {
        HotkeyAction::BrightnessUp => WorkerCmd::Step(step),
        HotkeyAction::BrightnessDown => WorkerCmd::Step(-step),
        HotkeyAction::TurnOff => WorkerCmd::TurnOffDisplays,
    }
}

/// Integer division rounding toward zero, as Rust's `/` does.
pub open spec fn trunc_div(a: int, b: int) -> int {
    if a >= 0 {
        a / b
    } else {
        -((-a) / b)
    }
}

/// The decimal digits of a number.
pub open spec fn decimal(n: nat) -> Seq<char>
    decreases n,
{
    if n < 10 {
        seq![digit(n)]
    } else {
        decimal(n / 10).push(digit(n % 10))
    }
}

pub open spec fn digit(d: nat) -> char {
    ((d + 48) as u8) as char
}

/// One monitor's line in the tray tooltip.
pub open spec fn tooltip_line(m: MonitorInfo) -> Seq<char> {
    "\n"@ + m.name@ + ": "@ + decimal(m.brightness as nat) + "%"@
}

pub open spec fn tooltip_upto(ms: Seq<MonitorInfo>, n: int) -> Seq<char>
    decreases n,
{
    if n <= 0 {
        Seq::empty()
    } else if ms[n - 1].hidden {
        tooltip_upto(ms, n - 1)
    } else {
        tooltip_upto(ms, n - 1) + tooltip_line(ms[n - 1])
    }
}

/// The tray tooltip: the app's name and a line with the level of each monitor the panel
/// shows, cut at the length Windows allows.
pub open spec fn spec_tooltip(ms: Seq<MonitorInfo>) -> Seq<char> {
    let full = "Monitorium"@ + tooltip_upto(ms, ms.len() as int);
    if full.len() <= TOOLTIP_MAX {
        full
    } else {
        full.take(TOOLTIP_MAX as int)
    }
}

pub fn push_decimal(out: &mut String, n: u8)
    ensures
        final(out)@ == old(out)@ + decimal(n as nat),
{
    let hundreds = n / 100;
    let tens = (n / 10) % 10;
    let ones = n % 10;
    proof {
        reveal_with_fuel(decimal, 3);
    }
    if n >= 100 {
        push_char(out, ((hundreds + 48) as u8) as char);
        assert(decimal((n / 100) as nat) == seq![digit(hundreds as nat)]);
    }
    if n >= 10 {
        push_char(out, ((tens + 48) as u8) as char);
    }
    push_char(out, ((ones + 48) as u8) as char);
    proof {
        if n >= 100 {
            assert(decimal((n / 10) as nat) == decimal((n / 100) as nat).push(digit(tens as nat)));
        }
    }
    assert(final(out)@ =~= old(out)@ + decimal(n as nat));
}

/// Whether two tray icon rectangles are the same.
fn same_hook(a: Option<Rect>, b: Option<Rect>) -> (r: bool)
    ensures
        r == (a == b),
{
    match (a, b) {
        (Some(a), Some(b)) => a.x == b.x && a.y == b.y && a.width == b.width && a.height
            == b.height,
        (None, None) => true,
        _ => false,
    }
}

/// Whether the difference of two coordinates can be taken and measured as an `i32`.
pub open spec fn gap_fits(p: i32, q: i32) -> bool {
    i32::MIN < p - q <= i32::MAX
}

/// Whether two coordinates are at most a pixel apart.
pub open spec fn near(p: i32, q: i32) -> bool {
    -1 <= p - q <= 1
}

/// What `same_rect` asks of its rectangles: each difference that it gets to is taken as an
/// `i32`, and the comparison stops at the first side that is more than a pixel off.
pub open spec fn same_rect_fits(a: Rect, b: Rect) -> bool {
    gap_fits(a.x, b.x) && (near(a.x, b.x) ==> gap_fits(a.y, b.y) && (near(a.y, b.y) ==> gap_fits(
        a.width,
        b.width,
    ) && (near(a.width, b.width) ==> gap_fits(a.height, b.height))))
}

fn within_a_pixel(p: i32, q: i32) -> (r: bool)
    requires
        gap_fits(p, q),
    ensures
        r == near(p, q),
{
    let d: i32 = p - q;
    let size: i32 = if d < 0 {
        -d
    } else {
        d
    };
    size <= 1
}

/// Whether two rectangles measured from different sources are the same, allowing each side
/// to be off by a pixel from rounding.
pub fn same_rect(a: Rect, b: Rect) -> (r: bool)
    requires
        same_rect_fits(a, b),
    ensures
        r == (near(a.x, b.x) && near(a.y, b.y) && near(a.width, b.width) && near(
            a.height,
            b.height,
        )),
{
    within_a_pixel(a.x, b.x) && within_a_pixel(a.y, b.y) && within_a_pixel(a.width, b.width)
        && within_a_pixel(a.height, b.height)
}

/// The monitor list as the panel shows it after the worker reported `m`: a monitor whose
/// slider the user moved a moment ago keeps the position the panel shows.
pub open spec fn merged(m: MonitorInfo, current: Seq<MonitorInfo>, edits: Map<Seq<char>, u64>) -> MonitorInfo {
    if edits.contains_key(m.id@) && exists|j: int| first_info(current, m.id@, j) {
        MonitorInfo { brightness: current[choose|j: int| first_info(current, m.id@, j)].brightness, ..m }
    } else {
        m
    }
}

/// `j` is the first monitor in the list with the identity.
pub open spec fn first_info(current: Seq<MonitorInfo>, id: Seq<char>, j: int) -> bool {
    &&& 0 <= j < current.len()
    &&& current[j].id@ == id
    &&& forall|k: int| 0 <= k < j ==> #[trigger] current[k].id@ != id
}

proof fn lemma_first_info_unique(current: Seq<MonitorInfo>, id: Seq<char>, j: int)
    requires
        first_info(current, id, j),
    ensures
        (choose|k: int| first_info(current, id, k)) == j,
{
    let k = choose|k: int| first_info(current, id, k);
    assert(first_info(current, id, k));
    if k < j {
        assert(current[k].id@ != id);
    } else if k > j {
        assert(current[j].id@ != id);
    }
}

/// The edits that still hold.
pub open spec fn kept_edits(edits: Map<Seq<char>, u64>, now: u64) -> Map<Seq<char>, u64> {
    Map::new(
        |k: Seq<char>| edits.contains_key(k) && elapsed(edits[k], now) < LOCAL_EDIT_HOLD_MS,
        |k: Seq<char>| edits[k],
    )
}

/// Which monitors a slider move reaches: every shown one when all are set at once, else the
/// monitor itself, or all of them where levels are linked.
pub open spec fn picks(m: MonitorInfo, id: Seq<char>, link: bool, all_shown: bool) -> bool {
    if all_shown {
        !m.hidden
    } else {
        link || m.id@ == id
    }
}

/// The edits after the picked monitors among the first `n` were moved now.
pub open spec fn edits_upto(
    edits: Map<Seq<char>, u64>,
    ms: Seq<MonitorInfo>,
    id: Seq<char>,
    link: bool,
    all_shown: bool,
    now: u64,
    n: int,
) -> Map<Seq<char>, u64>
    decreases n,
{
    if n <= 0 {
        edits
    } else {
        let e = edits_upto(edits, ms, id, link, all_shown, now, n - 1);
        if picks(ms[n - 1], id, link, all_shown) {
            e.insert(ms[n - 1].id@, now)
        } else {
            e
        }
    }
}

/// The monitors after the picked ones were moved to `value`.
pub open spec fn moved_to(ms: Seq<MonitorInfo>, id: Seq<char>, value: u8, link: bool, all_shown: bool) -> Seq<MonitorInfo> {
    Seq::new(ms.len(), |i: int| if picks(ms[i], id, link, all_shown) {
        MonitorInfo { brightness: value, ..ms[i] }
    } else {
        ms[i]
    })
}

proof fn lemma_edit_recorded(
    edits: Map<Seq<char>, u64>,
    ms: Seq<MonitorInfo>,
    id: Seq<char>,
    link: bool,
    all_shown: bool,
    now: u64,
    n: int,
    j: int,
)
    requires
        0 <= j < n <= ms.len(),
        picks(ms[j], id, link, all_shown),
    ensures
        edits_upto(edits, ms, id, link, all_shown, now, n).contains_key(ms[j].id@),
        edits_upto(edits, ms, id, link, all_shown, now, n)[ms[j].id@] == now,
    decreases n,
{
    if n - 1 > j {
        lemma_edit_recorded(edits, ms, id, link, all_shown, now, n - 1, j);
    }
}

/// A slider moved by hand holds against the worker's reports: a report that comes within
/// `LOCAL_EDIT_HOLD_MS` of the move shows the position the user set, and one that comes later
/// shows what the worker reports.
pub proof fn law_moved_slider_holds(
    ms: Seq<MonitorInfo>,
    edits: Map<Seq<char>, u64>,
    id: Seq<char>,
    value: u8,
    link: bool,
    moved_at: u64,
    reported: MonitorInfo,
    now: u64,
    j: int,
)
    requires
        first_info(ms, id, j),
        reported.id@ == id,
    ensures
        ({
            let shown = merged(
                reported,
                moved_to(ms, id, value, link, false),
                kept_edits(edits_upto(edits, ms, id, link, false, moved_at, ms.len() as int), now),
            );
            &&& elapsed(moved_at, now) < LOCAL_EDIT_HOLD_MS ==> shown == MonitorInfo {
                brightness: value,
                ..reported
            }
            &&& elapsed(moved_at, now) >= LOCAL_EDIT_HOLD_MS ==> shown == reported
        }),
{
    let moved = moved_to(ms, id, value, link, false);
    lemma_edit_recorded(edits, ms, id, link, false, moved_at, ms.len() as int, j);
    assert(first_info(moved, id, j));
    lemma_first_info_unique(moved, id, j);
}

/// What the panel keeps track of between frames.
pub struct Panel {
    pub monitors: Vec<MonitorInfo>,
    pub monitors_loaded: bool,
    /// When the user last moved each monitor's slider
    pub local_edits: IdMap<u64>,
    pub scroll_hook: Option<Rect>,
    /// Wheel units not yet worth a notch
    pub scroll_accum: i32,
    pub page: Page,
    pub flyout_visible: bool,
    pub hidden_at: Option<u64>,
    pub last_refresh: u64,
}

impl Panel {
    pub fn new(now: u64) -> (r: Self)
        ensures
            r.monitors@.len() == 0,
            !r.monitors_loaded,
            r.local_edits@ == Map::<Seq<char>, u64>::empty(),
            r.scroll_hook is None,
            r.scroll_accum == 0,
            r.page == Page::Monitors,
            !r.flyout_visible,
            r.hidden_at is None,
            r.last_refresh == now,
    {
        Panel {
            monitors: Vec::new(),
            monitors_loaded: false,
            local_edits: IdMap::new(),
            scroll_hook: None,
            scroll_accum: 0,
            page: Page::Monitors,
            flyout_visible: false,
            hidden_at: None,
            last_refresh: now,
        }
    }

    fn move_sliders(&mut self, id: &MonitorId, value: u8, link: bool, all_shown: bool, now: u64)
        ensures
            final(self).monitors@ == moved_to(old(self).monitors@, id@, value, link, all_shown),
            final(self).local_edits@ == edits_upto(
                old(self).local_edits@,
                old(self).monitors@,
                id@,
                link,
                all_shown,
                now,
                old(self).monitors@.len() as int,
            ),
            *final(self) == (Panel {
                monitors: final(self).monitors,
                local_edits: final(self).local_edits,
                ..*old(self)
            }),
    {
        let ghost ms0 = self.monitors@;
        let ghost e0 = self.local_edits@;
        let ghost before = *self;
        let n = self.monitors.len();
        for i in 0..n
            invariant
                n == ms0.len(),
                self.monitors@.len() == n,
                forall|j: int|
                    0 <= j < i ==> #[trigger] self.monitors@[j] == moved_to(ms0, id@, value, link, all_shown)[j],
                forall|j: int| i <= j < n ==> #[trigger] self.monitors@[j] == ms0[j],
                self.local_edits@ == edits_upto(e0, ms0, id@, link, all_shown, now, i as int),
                *self == (Panel { monitors: self.monitors, local_edits: self.local_edits, ..before }),
        {
            let hit = if all_shown {
                !self.monitors[i].hidden
            } else {
                link || self.monitors[i].id.same(id)
            };
            if hit {
                let mut m = self.monitors[i].clone();
                m.brightness = value;
                let key = m.id.clone();
                self.monitors.set(i, m);
                self.local_edits.insert(key, now);
            }
        }
        assert(self.monitors@ =~= moved_to(ms0, id@, value, link, all_shown));
    }

    /// Moves a monitor's slider, or all of them where levels are linked, right away in the
    /// panel; the command tells the worker.
    pub fn set_brightness(&mut self, id: &MonitorId, value: u8, link: bool, now: u64) -> (r: WorkerCmd)
        ensures
            r == (WorkerCmd::SetBrightness { id: *id, value }),
            final(self).monitors@ == moved_to(old(self).monitors@, id@, value, link, false),
            final(self).local_edits@ == edits_upto(
                old(self).local_edits@,
                old(self).monitors@,
                id@,
                link,
                false,
                now,
                old(self).monitors@.len() as int,
            ),
            *final(self) == (Panel {
                monitors: final(self).monitors,
                local_edits: final(self).local_edits,
                ..*old(self)
            }),
    {
        self.move_sliders(id, value, link, false, now);
        WorkerCmd::SetBrightness { id: id.clone(), value }
    }

    /// Moves every slider the panel shows right away; the command tells the worker.
    pub fn set_all_brightness(&mut self, value: u8, now: u64) -> (r: WorkerCmd)
        ensures
            r == WorkerCmd::SetAll(value),
            final(self).monitors@ == moved_to(old(self).monitors@, Seq::empty(), value, false, true),
            final(self).local_edits@ == edits_upto(
                old(self).local_edits@,
                old(self).monitors@,
                Seq::empty(),
                false,
                true,
                now,
                old(self).monitors@.len() as int,
            ),
            *final(self) == (Panel {
                monitors: final(self).monitors,
                local_edits: final(self).local_edits,
                ..*old(self)
            }),
    {
        let none = MonitorId(String::new());
        self.move_sliders(&none, value, false, true, now);
        WorkerCmd::SetAll(value)
    }

    /// The monitors the worker reports, except that a slider the user moved a moment ago keeps
    /// the position the panel shows; edits that are too old are forgotten.
    pub fn on_monitors(&mut self, monitors: Vec<MonitorInfo>, now: u64)
        ensures
            final(self).local_edits@ == kept_edits(old(self).local_edits@, now),
            final(self).monitors@.len() == monitors@.len(),
            forall|i: int|
                0 <= i < monitors@.len() ==> #[trigger] final(self).monitors@[i] == merged(
                    monitors@[i],
                    old(self).monitors@,
                    kept_edits(old(self).local_edits@, now),
                ),
            final(self).monitors_loaded,
            *final(self) == (Panel {
                monitors: final(self).monitors,
                local_edits: final(self).local_edits,
                monitors_loaded: true,
                ..*old(self)
            }),
    {
        // forget the edits that no longer hold
        let mut kept: IdMap<u64> = IdMap::new();
        let count = self.local_edits.len();
        let ghost e0 = self.local_edits@;
        for k in 0..count
            invariant
                count == self.local_edits.key_seq().len(),
                e0 == self.local_edits@,
                forall|key: Seq<char>| #[trigger]
                    kept@.contains_key(key) == (exists|j: int|
                        0 <= j < k && #[trigger] self.local_edits.key_seq()[j]@ == key && elapsed(
                            e0[key],
                            now,
                        ) < LOCAL_EDIT_HOLD_MS),
                forall|key: Seq<char>| #[trigger] kept@.contains_key(key) ==> kept@[key] == e0[key],
        {
            let key = self.local_edits.key_at(k);
            let at = *self.local_edits.value_at(k);
            let passed = if now >= at {
                now - at
            } else {
                0
            };
            if passed < LOCAL_EDIT_HOLD_MS {
                kept.insert(key.clone(), at);
            }
        }
        proof {
            assert forall|key: Seq<char>| #[trigger] kept@.contains_key(key) == kept_edits(e0, now).contains_key(key) by {
                if e0.contains_key(key) {
                    let j = choose|j: int| 0 <= j < count && #[trigger] self.local_edits.key_seq()[j]@ == key;
                    assert(self.local_edits.key_seq()[j]@ == key);
                }
            }
            assert(kept@ =~= kept_edits(e0, now));
        }
        let mut out: Vec<MonitorInfo> = Vec::new();
        let n = monitors.len();
        for i in 0..n
            invariant
                n == monitors@.len(),
                kept@ == kept_edits(e0, now),
                out@.len() == i,
                forall|j: int|
                    0 <= j < i ==> #[trigger] out@[j] == merged(monitors@[j], self.monitors@, kept@),
        {
            let m = self.merge_one(&monitors[i], &kept);
            out.push(m);
        }
        self.local_edits = kept;
        self.monitors = out;
        self.monitors_loaded = true;
    }

    /// The first monitor in the list with the identity.
    fn find_monitor(&self, id: &MonitorId) -> (r: Option<usize>)
        ensures
            match r {
                Some(j) => first_info(self.monitors@, id@, j as int),
                None => forall|k: int| !first_info(self.monitors@, id@, k),
            },
    {
        let n = self.monitors.len();
        for j in 0..n
            invariant
                n == self.monitors@.len(),
                forall|k: int| 0 <= k < j ==> #[trigger] self.monitors@[k].id@ != id@,
        {
            if self.monitors[j].id.same(id) {
                return Some(j);
            }
        }
        proof {
            assert forall|k: int| !first_info(self.monitors@, id@, k) by {
                if 0 <= k < n {
                    assert(self.monitors@[k].id@ != id@);
                }
            }
        }
        None
    }

    /// A reported monitor as the panel shows it.
    fn merge_one(&self, reported: &MonitorInfo, kept: &IdMap<u64>) -> (r: MonitorInfo)
        ensures
            r == merged(*reported, self.monitors@, kept@),
    {
        let mut m = reported.clone();
        if kept.contains(&m.id) {
            match self.find_monitor(&m.id) {
                Some(j) => {
                    proof {
                        lemma_first_info_unique(self.monitors@, m.id@, j as int);
                    }
                    m.brightness = self.monitors[j].brightness;
                },
                None => {},
            }
        }
        m
    }

    /// The tray tooltip for the monitors as the panel shows them.
    pub fn tooltip(&self) -> (r: String)
        ensures
            r@ == spec_tooltip(self.monitors@),
    {
        let mut text = String::from_str("Monitorium");
        let n = self.monitors.len();
        for i in 0..n
            invariant
                n == self.monitors@.len(),
                text@ == "Monitorium"@ + tooltip_upto(self.monitors@, i as int),
        {
            let m = &self.monitors[i];
            if !m.hidden {
                let ghost before = text@;
                text.append("\n");
                text.append(m.name.as_str());
                text.append(": ");
                push_decimal(&mut text, m.brightness);
                text.append("%");
                assert(text@ =~= before + tooltip_line(*m));
            }
        }
        let len = text.as_str().unicode_len();
        if len <= TOOLTIP_MAX {
            text
        } else {
            let cut = text.as_str().substring_char(0, TOOLTIP_MAX);
            assert(text@.subrange(0, TOOLTIP_MAX as int) == text@.take(TOOLTIP_MAX as int));
            String::from_str(cut)
        }
    }

    /// Whether a scroll of `delta` wheel units can be turned into a step.
    pub open spec fn spec_scroll_fits(&self, delta: i32, scroll_step: u8) -> bool {
        let sum = self.scroll_accum + delta;
        let step = if scroll_step == 0 {
            1
        } else {
            scroll_step as int
        };
        &&& i32::MIN <= sum <= i32::MAX
        &&& -32768 <= trunc_div(sum, WHEEL_DELTA as int) * step <= 32767
    }

    pub fn scroll_fits(&self, delta: i32, scroll_step: u8) -> (r: bool)
        ensures
            r == self.spec_scroll_fits(delta, scroll_step),
    {
        let sum: i64 = self.scroll_accum as i64 + delta as i64;
        if sum < i32::MIN as i64 || sum > i32::MAX as i64 {
            return false;
        }
        let step: i64 = if scroll_step == 0 {
            1
        } else {
            scroll_step as i64
        };
        let notches: i64 = if sum >= 0 {
            sum / 120
        } else {
            -((-sum) / 120)
        };
        assert(-17895698 <= notches <= 17895698);
        assert(-5000000000 <= notches * step <= 5000000000) by (nonlinear_arith)
            requires
                -17895698 <= notches <= 17895698,
                1 <= step <= 255,
        ;
        let moved = notches * step;
        -32768 <= moved && moved <= 32767
    }

    /// A scroll over the tray icon: whole notches step the monitors by the scroll step each,
    /// and what is left of a notch waits for the next scroll.
    pub fn tray_scroll(&mut self, delta: i32, scroll_step: u8) -> (r: Option<WorkerCmd>)
        requires
            old(self).spec_scroll_fits(delta, scroll_step),
        ensures
            ({
                let sum = old(self).scroll_accum + delta;
                let notches = trunc_div(sum, WHEEL_DELTA as int);
                let step = if scroll_step == 0 {
                    1
                } else {
                    scroll_step as int
                };
                &&& final(self).scroll_accum == sum - notches * WHEEL_DELTA
                &&& r == if notches != 0 {
                    Some(WorkerCmd::Step((notches * step) as i16))
                } else {
                    None
                }
            }),
            *final(self) == (Panel { scroll_accum: final(self).scroll_accum, ..*old(self) }),
    {
        let sum = self.scroll_accum + delta;
        let notches = sum / WHEEL_DELTA;
        assert(notches == trunc_div(sum as int, 120));
        if notches != 0 {
            self.scroll_accum = sum - notches * WHEEL_DELTA;
            let step: i16 = if scroll_step == 0 {
                1
            } else {
                scroll_step as i16
            };
            proof {
                let st = step as int;
                let no = notches as int;
                assert(-32768 <= no <= 32767) by (nonlinear_arith)
                    requires
                        -32768 <= no * st <= 32767,
                        1 <= st,
                ;
            }
            let n16 = notches as i16;
            Some(WorkerCmd::Step(n16 * step))
        } else {
            self.scroll_accum = sum;
            None
        }
    }

    /// Follows the tray icon the pointer is over, for scrolling; a new place starts counting
    /// wheel units afresh. Says whether the place changed.
    pub fn set_scroll_hook(&mut self, rect: Option<Rect>) -> (r: bool)
        ensures
            r == (old(self).scroll_hook != rect),
            r ==> *final(self) == (Panel { scroll_hook: rect, scroll_accum: 0, ..*old(self) }),
            !r ==> *final(self) == *old(self),
    {
        if !same_hook(self.scroll_hook, rect) {
            self.scroll_hook = rect;
            self.scroll_accum = 0;
            true
        } else {
            false
        }
    }

    /// What a click on the tray icon does.
    pub fn toggle(&self, now: u64) -> (r: FlyoutAction)
        ensures
            r == if self.flyout_visible {
                FlyoutAction::Hide
            } else if self.hidden_at matches Some(t) && elapsed(t, now) < REOPEN_GUARD_MS {
                FlyoutAction::Ignore
            } else {
                FlyoutAction::Show
            },
    {
        if self.flyout_visible {
            return FlyoutAction::Hide;
        }
        match self.hidden_at {
            Some(t) => {
                let passed = if now >= t {
                    now - t
                } else {
                    0
                };
                if passed < REOPEN_GUARD_MS {
                    FlyoutAction::Ignore
                } else {
                    FlyoutAction::Show
                }
            },
            None => FlyoutAction::Show,
        }
    }

    /// Looks for monitors again; the command tells the worker.
    pub fn refresh(&mut self, now: u64) -> (r: WorkerCmd)
        ensures
            r == WorkerCmd::Refresh,
            *final(self) == (Panel { last_refresh: now, ..*old(self) }),
    {
        self.last_refresh = now;
        WorkerCmd::Refresh
    }

    /// Opens the panel on the page. Says whether the monitors are due to be looked for again,
    /// which then counts as done now.
    pub fn show_flyout(&mut self, page: Page, now: u64) -> (r: bool)
        ensures
            r == (elapsed(old(self).last_refresh, now) > REFRESH_ON_OPEN_MS),
            *final(self) == (Panel {
                page,
                flyout_visible: true,
                last_refresh: if r {
                    now
                } else {
                    old(self).last_refresh
                },
                ..*old(self)
            }),
    {
        self.page = page;
        self.flyout_visible = true;
        let passed = if now >= self.last_refresh {
            now - self.last_refresh
        } else {
            0
        };
        if passed > REFRESH_ON_OPEN_MS {
            self.last_refresh = now;
            true
        } else {
            false
        }
    }

    /// Closes the panel, if it is open. Says whether it was.
    pub fn hide_flyout(&mut self, now: u64) -> (r: bool)
        ensures
            r == old(self).flyout_visible,
            r ==> *final(self) == (Panel { flyout_visible: false, hidden_at: Some(now), ..*old(self) }),
            !r ==> *final(self) == *old(self),
    {
        if !self.flyout_visible {
            return false;
        }
        self.flyout_visible = false;
        self.hidden_at = Some(now);
        true
    }
}

/// What a change of the settings asks of the program besides saving them and handing them to
/// the worker.
#[derive(Clone, Copy, Debug, PartialEq, Eq)]
pub struct SettingsEffects {
    /// Start at sign-in was switched: register or remove the login item
    pub autostart: bool,
    /// The theme changed: restyle the window
    pub theme: bool,
    /// A shortcut or their switch changed, and none is being recorded: register them again
    pub hotkeys: bool,
    /// Scrolling on the tray icon is off: drop the scroll hook
    pub drop_scroll_hook: bool,
}

/// What changed between the settings before and now, while a shortcut is being recorded or not.
pub fn settings_effects(before: &Settings, now: &Settings, recording: bool) -> (r: SettingsEffects)
    ensures
        r.autostart == (now.start_with_os != before.start_with_os),
        r.theme == (now.theme != before.theme),
        r.hotkeys == (!recording && (now.hotkeys_enabled != before.hotkeys_enabled
            || now.hotkey_up@ != before.hotkey_up@ || now.hotkey_down@ != before.hotkey_down@
            || now.hotkey_off@ != before.hotkey_off@)),
        r.drop_scroll_hook == !now.scroll_on_tray,
{
    let hotkeys_changed = now.hotkeys_enabled != before.hotkeys_enabled || now.hotkey_up
        != before.hotkey_up || now.hotkey_down != before.hotkey_down || now.hotkey_off
        != before.hotkey_off;
    SettingsEffects {
        autostart: now.start_with_os != before.start_with_os,
        theme: now.theme != before.theme,
        hotkeys: hotkeys_changed && !recording,
        drop_scroll_hook: !now.scroll_on_tray,
    }
}

/// Whether the panel has a row for the monitor: it is not hidden and has a way to change its
/// brightness.
pub open spec fn has_row(m: MonitorInfo) -> bool {
    !m.hidden && m.method != Method::Unsupported
}

/// The places of the monitors among the first `n` that have a row, in order.
pub open spec fn rows_upto(ms: Seq<MonitorInfo>, n: int) -> Seq<usize>
    decreases n,
{
    if n <= 0 {
        Seq::empty()
    } else if has_row(ms[n - 1]) {
        rows_upto(ms, n - 1).push((n - 1) as usize)
    } else {
        rows_upto(ms, n - 1)
    }
}

/// The names of the monitors at the places, joined by ", ".
pub open spec fn joined_names(ms: Seq<MonitorInfo>, rows: Seq<usize>, k: int) -> Seq<char>
    decreases k,
{
    if k <= 0 {
        Seq::empty()
    } else if k == 1 {
        ms[rows[0] as int].name@
    } else {
        joined_names(ms, rows, k - 1) + ", "@ + ms[rows[k - 1] as int].name@
    }
}

/// What the brightness page shows.
#[derive(Debug, PartialEq)]
pub enum FlyoutRows {
    /// The worker has not reported yet
    Loading,
    /// No monitor can be adjusted
    Empty,
    /// One slider for all monitors (levels are linked): its position, and the monitors' names
    All { value: u8, names: String },
    /// One slider each, for the monitors at these places
    Each(Vec<usize>),
}

fn shown_rows(ms: &Vec<MonitorInfo>) -> (r: Vec<usize>)
    ensures
        r@ == rows_upto(ms@, ms@.len() as int),
{
    let mut r: Vec<usize> = Vec::new();
    for i in 0..ms.len()
        invariant
            r@ == rows_upto(ms@, i as int),
    {
        if !ms[i].hidden && !ms[i].method.same(Method::Unsupported) {
            r.push(i);
        }
    }
    r
}

proof fn lemma_rows_in_range(ms: Seq<MonitorInfo>, n: int)
    requires
        0 <= n <= ms.len(),
    ensures
        forall|k: int| 0 <= k < rows_upto(ms, n).len() ==> #[trigger] rows_upto(ms, n)[k] < n,
        rows_upto(ms, n).len() <= n,
    decreases n,
{
    if n > 0 {
        lemma_rows_in_range(ms, n - 1);
    }
}

impl Panel {
    /// The rows of the brightness page: one slider for all where levels are linked and more
    /// than one monitor has a row, showing the first one's position; else one for each
    /// monitor that is not hidden and can be adjusted.
    pub fn flyout_rows(&self, link: bool) -> (r: FlyoutRows)
        ensures
            ({
                let rows = rows_upto(self.monitors@, self.monitors@.len() as int);
                if !self.monitors_loaded {
                    r == FlyoutRows::Loading
                } else if rows.len() == 0 {
                    r == FlyoutRows::Empty
                } else if link && rows.len() > 1 {
                    r matches FlyoutRows::All { value, names } && value
                        == self.monitors@[rows[0] as int].brightness && names@ == joined_names(
                        self.monitors@,
                        rows,
                        rows.len() as int,
                    )
                } else {
                    r matches FlyoutRows::Each(each) && each@ == rows
                }
            }),
    {
        proof {
            reveal_strlit(", ");
        }
        if !self.monitors_loaded {
            return FlyoutRows::Loading;
        }
        let rows = shown_rows(&self.monitors);
        proof {
            lemma_rows_in_range(self.monitors@, self.monitors@.len() as int);
        }
        if rows.len() == 0 {
            return FlyoutRows::Empty;
        }
        if !(link && rows.len() > 1) {
            return FlyoutRows::Each(rows);
        }
        let mut names = self.monitors[rows[0]].name.clone();
        for k in 1..rows.len()
            invariant
                rows@ == rows_upto(self.monitors@, self.monitors@.len() as int),
                forall|j: int| 0 <= j < rows@.len() ==> #[trigger] rows@[j] < self.monitors@.len(),
                rows@.len() > 1,
                names@ == joined_names(self.monitors@, rows@, k as int),
        {
            names.append(", ");
            names.append(self.monitors[rows[k]].name.as_str());
        }
        FlyoutRows::All { value: self.monitors[rows[0]].brightness, names }
    }
}

/// Where the panel opens on a Windows monitor, in pixels: by the corner where the taskbar is,
/// `margin` away from the taskbar and the screen's edge, and never past the top or left of the
/// work area. `work` is the monitor without the taskbar, `full` the whole monitor, `w` and `h`
/// the panel's size.
pub open spec fn spec_flyout_origin(work: Rect, full: Rect, w: i32, h: i32, margin: i32) -> (int, int) {
    let left = work.x as int;
    let top = work.y as int;
    let right = work.x + work.width;
    let bottom = work.y + work.height;
    let (x, y) = if top > full.y {
        (right - w - margin, top + margin)
    } else if left > full.x {
        (left + margin, bottom - h - margin)
    } else {
        (right - w - margin, bottom - h - margin)
    };
    (if x < left { left } else { x }, if y < top { top } else { y })
}

/// The sums of `spec_flyout_origin` stay within `i32`, as the screen's coordinates do.
pub open spec fn flyout_fits(work: Rect, w: i32, h: i32, margin: i32) -> bool {
    let i32_range = |v: int| i32::MIN <= v <= i32::MAX;
    &&& i32_range(work.x + work.width)
    &&& i32_range(work.y + work.height)
    &&& i32_range(work.x + work.width - w)
    &&& i32_range(work.x + work.width - w - margin)
    &&& i32_range(work.y + work.height - h)
    &&& i32_range(work.y + work.height - h - margin)
    &&& i32_range(work.x + margin)
    &&& i32_range(work.y + margin)
}

pub fn flyout_origin(work: Rect, full: Rect, w: i32, h: i32, margin: i32) -> (r: (i32, i32))
    requires
        flyout_fits(work, w, h, margin),
    ensures
        r.0 == spec_flyout_origin(work, full, w, h, margin).0,
        r.1 == spec_flyout_origin(work, full, w, h, margin).1,
{
    let right = work.x + work.width;
    let bottom = work.y + work.height;
    let (x, y) = if work.y > full.y {
        (right - w - margin, work.y + margin)
    } else if work.x > full.x {
        (work.x + margin, bottom - h - margin)
    } else {
        (right - w - margin, bottom - h - margin)
    };
    (
        if x < work.x {
            work.x
        } else {
            x
        },
        if y < work.y {
            work.y
        } else {
            y
        },
    )
}

} // verus!

//! How the displays Windows reports are put together: which display targets each GDI monitor
//! shows, the name and identity each gets, and where its hardware level comes from.

use vstd::prelude::*;
use vstd::string::StrSliceExecFns;

use crate::backend::{Display, HardwareKind};
use crate::discovery::{
    counts_unnamed, display_name, match_physical, match_upto, spec_display_name, target_id,
};
use crate::display_config::{
    eq_ignore_case, monitor_key, spec_monitor_key, spec_target_of, upper_all, Target, TargetRef,
};
use crate::hardware::{ddc_percent, spec_ddc_percent};
use crate::model::{MonitorId, Rect};
use crate::panel::decimal;
use crate::text::{ascii_upper, spec_ascii_upper};

verus! {

/// A monitor as GDI reports it: its device name, where it is on the desktop, and what each of
/// its physical monitors calls itself.
pub struct GdiMonitor {
    pub gdi_name: String,
    pub bounds: Rect,
    pub physical: Vec<String>,
}

/// Where a display's hardware level comes from.
#[derive(Clone, Copy, Debug, PartialEq, Eq)]
pub enum LevelSource {
    /// WMI reported this level for the monitor's key
    Wmi(u8),
    /// DDC/CI of this physical monitor (by its place on the GDI monitor), still to be read
    Physical(usize),
    /// Neither: the display is dimmed in software only
    Unavailable,
}

/// A display found on Windows, before its DDC/CI is read: the target and GDI monitor it comes
/// from (by place), its identity and name, its monitor key, and where its level comes from.
pub struct PlannedDisplay {
    pub target: usize,
    pub monitor: usize,
    pub id: MonitorId,
    pub name: String,
    pub key: Option<String>,
    pub source: LevelSource,
}

pub open spec fn opt_view(o: Option<String>) -> Option<Seq<char>> {
    match o {
        Some(s) => Some(s@),
        None => None,
    }
}

pub type PlanView = (usize, usize, Seq<char>, Seq<char>, Option<Seq<char>>, LevelSource);

pub open spec fn plan_view(p: PlannedDisplay) -> PlanView {
    (p.target, p.monitor, p.id@, p.name@, opt_view(p.key), p.source)
}

pub open spec fn levels_view(levels: Seq<(String, u8)>) -> Seq<(Seq<char>, u8)> {
    levels.map_values(|e: (String, u8)| (e.0@, e.1))
}

/// The level WMI reported for a key: the last entry with it, as a map filled in order keeps.
pub open spec fn wmi_level(levels: Seq<(Seq<char>, u8)>, key: Seq<char>) -> Option<u8>
    decreases levels.len(),
{
    if levels.len() == 0 {
        None
    } else if levels.last().0 == key {
        Some(levels.last().1)
    } else {
        wmi_level(levels.drop_last(), key)
    }
}

pub open spec fn key_level(levels: Seq<(Seq<char>, u8)>, key: Option<Seq<char>>) -> Option<u8> {
    match key {
        Some(k) => wmi_level(levels, k),
        None => None,
    }
}

/// The targets among the first `n`, in order, that a GDI monitor shows: not taken by an earlier
/// monitor, and with its GDI name in any case.
pub open spec fn candidates_upto(targets: Seq<Target>, used: Seq<bool>, gdi: Seq<char>, n: int) -> Seq<
    usize,
>
    decreases n,
{
    if n <= 0 {
        Seq::empty()
    } else {
        let c = candidates_upto(targets, used, gdi, n - 1);
        if !used[n - 1] && eq_ignore_case(targets[n - 1].gdi_name@, gdi) {
            c.push((n - 1) as usize)
        } else {
            c
        }
    }
}

pub open spec fn candidates(targets: Seq<Target>, used: Seq<bool>, gdi: Seq<char>) -> Seq<usize> {
    candidates_upto(targets, used, gdi, targets.len() as int)
}

pub open spec fn friendly_names(targets: Seq<Target>, cands: Seq<usize>) -> Seq<Seq<char>> {
    cands.map_values(|t: usize| targets[t as int].friendly_name@)
}

/// WMI's level first, else the physical monitor matched to the target, else none.
pub open spec fn source_of(wmi: Option<u8>, physical: Option<usize>) -> LevelSource {
    match wmi {
        Some(level) => LevelSource::Wmi(level),
        None => match physical {
            Some(p) => LevelSource::Physical(p),
            None => LevelSource::Unavailable,
        },
    }
}

/// The identity: the monitor key, else the GDI name and the target's place.
pub open spec fn planned_id(key: Option<Seq<char>>, gdi: Seq<char>, t: usize) -> Seq<char> {
    match key {
        Some(k) => k,
        None => gdi + "#"@ + decimal(t as nat),
    }
}

/// One display, and the count of displays named by number after it.
pub open spec fn plan_one(
    target: Target,
    levels: Seq<(Seq<char>, u8)>,
    gdi: Seq<char>,
    monitor: int,
    t: usize,
    physical: Option<usize>,
    unnamed: nat,
) -> (PlanView, nat) {
    let key = spec_monitor_key(target.device_path@);
    (
        (
            t,
            monitor as usize,
            planned_id(key, gdi, t),
            spec_display_name(target.friendly_name@, target.internal, unnamed),
            key,
            source_of(key_level(levels, key), physical),
        ),
        if counts_unnamed(target.friendly_name@, target.internal) {
            unnamed + 1
        } else {
            unnamed
        },
    )
}

/// The displays so far, which targets are taken, and how many displays are named by number.
pub type PlanState = (Seq<PlanView>, Seq<bool>, nat);

/// After the first `j` candidates of a GDI monitor.
pub open spec fn plan_monitor_upto(
    targets: Seq<Target>,
    levels: Seq<(Seq<char>, u8)>,
    gdi: Seq<char>,
    monitor: int,
    cands: Seq<usize>,
    physical: Seq<Option<usize>>,
    start: PlanState,
    j: int,
) -> PlanState
    decreases j,
{
    if j <= 0 {
        start
    } else {
        let s = plan_monitor_upto(targets, levels, gdi, monitor, cands, physical, start, j - 1);
        let t = cands[j - 1];
        let (v, u) = plan_one(targets[t as int], levels, gdi, monitor, t, physical[j - 1], s.2);
        (s.0.push(v), s.1.update(t as int, true), u)
    }
}

/// After the first `k` GDI monitors: each takes its candidate targets in order, matches its
/// physical monitors to them, and makes a display of each.
pub open spec fn plan_upto(
    targets: Seq<Target>,
    monitors: Seq<GdiMonitor>,
    levels: Seq<(Seq<char>, u8)>,
    k: int,
) -> PlanState
    decreases k,
{
    if k <= 0 {
        (Seq::empty(), Seq::new(targets.len(), |i: int| false), 0)
    } else {
        let s = plan_upto(targets, monitors, levels, k - 1);
        let m = monitors[k - 1];
        let cands = candidates(targets, s.1, m.gdi_name@);
        let descriptions = m.physical@.map_values(|d: String| d@);
        let physical = match_upto(
            friendly_names(targets, cands),
            descriptions,
            descriptions.len() as int,
        );
        plan_monitor_upto(
            targets,
            levels,
            m.gdi_name@,
            k - 1,
            cands,
            physical,
            s,
            cands.len() as int,
        )
    }
}

/// How many entries are set.
pub open spec fn trues(s: Seq<bool>) -> nat
    decreases s.len(),
{
    if s.len() == 0 {
        0
    } else {
        trues(s.drop_last()) + if s.last() {
            1nat
        } else {
            0nat
        }
    }
}

proof fn lemma_trues_bound(s: Seq<bool>)
    ensures
        trues(s) <= s.len(),
    decreases s.len(),
{
    if s.len() > 0 {
        lemma_trues_bound(s.drop_last());
    }
}

proof fn lemma_trues_set(s: Seq<bool>, i: int)
    requires
        0 <= i < s.len(),
        !s[i],
    ensures
        trues(s.update(i, true)) == trues(s) + 1,
    decreases s.len(),
{
    if i == s.len() - 1 {
        assert(s.update(i, true).drop_last() =~= s.drop_last());
    } else {
        lemma_trues_set(s.drop_last(), i);
        assert(s.update(i, true).drop_last() =~= s.drop_last().update(i, true));
    }
}

proof fn lemma_candidates(targets: Seq<Target>, used: Seq<bool>, gdi: Seq<char>, n: int)
    requires
        0 <= n <= targets.len(),
        targets.len() <= usize::MAX,
        used.len() == targets.len(),
    ensures
        forall|a: int|
            0 <= a < candidates_upto(targets, used, gdi, n).len() ==> #[trigger] candidates_upto(
                targets,
                used,
                gdi,
                n,
            )[a] < n && !used[candidates_upto(targets, used, gdi, n)[a] as int],
        forall|a: int, b: int|
            0 <= a < b < candidates_upto(targets, used, gdi, n).len() ==> #[trigger] candidates_upto(
                targets,
                used,
                gdi,
                n,
            )[a] < #[trigger] candidates_upto(targets, used, gdi, n)[b],
    decreases n,
{
    if n > 0 {
        lemma_candidates(targets, used, gdi, n - 1);
        let c = candidates_upto(targets, used, gdi, n - 1);
        let c2 = candidates_upto(targets, used, gdi, n);
        let hit = !used[n - 1] && eq_ignore_case(targets[n - 1].gdi_name@, gdi);
        if hit {
            assert(c2 == c.push((n - 1) as usize));
        } else {
            assert(c2 == c);
        }
        assert forall|a: int| 0 <= a < c2.len() implies #[trigger] c2[a] < n && !used[c2[a] as int] by {
            if a < c.len() {
                assert(c2[a] == c[a]);
                assert(c[a] < n - 1 && !used[c[a] as int]);
            }
        }
        assert forall|a: int, b: int| 0 <= a < b < c2.len() implies #[trigger] c2[a] < #[trigger] c2[b] by {
            assert(c2[a] == c[a]);
            assert(c[a] < n - 1);
            if b < c.len() {
                assert(c2[b] == c[b]);
                assert(c[a] < c[b]);
            }
        }
    }
}

/// Whether two names are equal when ASCII case is ignored, as `str::eq_ignore_ascii_case`.
fn same_ignoring_case(a: &str, b: &str) -> (r: bool)
    ensures
        r == eq_ignore_case(a@, b@),
{
    let n = a.unicode_len();
    if n != b.unicode_len() {
        assert(upper_all(a@).len() != upper_all(b@).len());
        return false;
    }
    for i in 0..n
        invariant
            n == a@.len(),
            n == b@.len(),
            forall|j: int| 0 <= j < i ==> spec_ascii_upper(a@[j]) == spec_ascii_upper(b@[j]),
    {
        if ascii_upper(a.get_char(i)) != ascii_upper(b.get_char(i)) {
            assert(upper_all(a@)[i as int] != upper_all(b@)[i as int]);
            return false;
        }
    }
    assert(upper_all(a@) =~= upper_all(b@));
    true
}

fn candidates_of(targets: &Vec<Target>, used: &Vec<bool>, gdi: &String) -> (r: Vec<usize>)
    requires
        used@.len() == targets@.len(),
    ensures
        r@ == candidates(targets@, used@, gdi@),
{
    let mut r: Vec<usize> = Vec::new();
    let n = targets.len();
    for t in 0..n
        invariant
            n == targets@.len(),
            used@.len() == targets@.len(),
            r@ == candidates_upto(targets@, used@, gdi@, t as int),
    {
        if !used[t] && same_ignoring_case(targets[t].gdi_name.as_str(), gdi.as_str()) {
            r.push(t);
        }
    }
    r
}

fn names_of(targets: &Vec<Target>, cands: &Vec<usize>) -> (r: Vec<String>)
    requires
        forall|a: int| 0 <= a < cands@.len() ==> #[trigger] cands@[a] < targets@.len(),
    ensures
        r@.len() == cands@.len(),
        r@.map_values(|s: String| s@) == friendly_names(targets@, cands@),
{
    let mut r: Vec<String> = Vec::new();
    for a in 0..cands.len()
        invariant
            forall|a: int| 0 <= a < cands@.len() ==> #[trigger] cands@[a] < targets@.len(),
            r@.len() == a,
            forall|b: int|
                0 <= b < a ==> (#[trigger] r@[b])@ == targets@[cands@[b] as int].friendly_name@,
    {
        r.push(targets[cands[a]].friendly_name.clone());
    }
    assert(r@.map_values(|s: String| s@) =~= friendly_names(targets@, cands@));
    r
}

/// The level WMI reported for a monitor key.
pub fn lookup_level(levels: &Vec<(String, u8)>, key: &String) -> (r: Option<u8>)
    ensures
        r == wmi_level(levels_view(levels@), key@),
{
    let ghost lv = levels_view(levels@);
    let mut i = levels.len();
    assert(lv.take(i as int) =~= lv);
    while i > 0
        invariant
            i <= levels@.len(),
            lv == levels_view(levels@),
            wmi_level(lv, key@) == wmi_level(lv.take(i as int), key@),
        decreases i,
    {
        assert(lv.take(i as int).drop_last() =~= lv.take(i - 1));
        assert(lv.take(i as int).last() == lv[i - 1]);
        if levels[i - 1].0 == *key {
            return Some(levels[i - 1].1);
        }
        i = i - 1;
    }
    assert(lv.take(0).len() == 0);
    None
}

fn plan_one_display(
    target: &Target,
    levels: &Vec<(String, u8)>,
    gdi: &String,
    monitor: usize,
    t: usize,
    physical: Option<usize>,
    unnamed: &mut u32,
) -> (r: PlannedDisplay)
    requires
        counts_unnamed(target.friendly_name@, target.internal) ==> *old(unnamed) < u32::MAX,
    ensures
        (plan_view(r), *final(unnamed) as nat) == plan_one(
            *target,
            levels_view(levels@),
            gdi@,
            monitor as int,
            t,
            physical,
            *old(unnamed) as nat,
        ),
{
    let key = monitor_key(target.device_path.as_str());
    let id = match &key {
        Some(k) => k.clone(),
        None => target_id(gdi.as_str(), t),
    };
    let name = display_name(target.friendly_name.as_str(), target.internal, unnamed);
    let level = match &key {
        Some(k) => lookup_level(levels, k),
        None => None,
    };
    let source = match level {
        Some(l) => LevelSource::Wmi(l),
        None => match physical {
            Some(p) => LevelSource::Physical(p),
            None => LevelSource::Unavailable,
        },
    };
    PlannedDisplay { target: t, monitor, id: MonitorId(id), name, key, source }
}

/// The displays of all GDI monitors, in order: each monitor takes the targets not taken yet
/// whose GDI name is its own (in any case), matches its physical monitors to them, and makes a
/// display of each, named and identified as `display_name` and `monitor_key` say.
pub fn plan_displays(
    targets: &Vec<Target>,
    monitors: &Vec<GdiMonitor>,
    levels: &Vec<(String, u8)>,
) -> (r: Vec<PlannedDisplay>)
    requires
        targets@.len() < u32::MAX,
    ensures
        r@.map_values(|p: PlannedDisplay| plan_view(p)) == plan_upto(
            targets@,
            monitors@,
            levels_view(levels@),
            monitors@.len() as int,
        ).0,
        forall|i: int|
            0 <= i < r@.len() ==> (#[trigger] r@[i]).target < targets@.len() && r@[i].monitor
                < monitors@.len(),
{
    let ghost lv = levels_view(levels@);
    let mut out: Vec<PlannedDisplay> = Vec::new();
    let mut used: Vec<bool> = Vec::new();
    let mut unnamed: u32 = 0;
    for t in 0..targets.len()
        invariant
            used@ == Seq::new(t as nat, |i: int| false),
    {
        used.push(false);
        assert(used@ =~= Seq::new((t + 1) as nat, |i: int| false));
    }
    proof {
        lemma_trues_zero(used@, used@.len() as int);
        assert(used@.take(used@.len() as int) =~= used@);
    }
    let ghost start = plan_upto(targets@, monitors@, lv, 0);
    assert(out@.map_values(|p: PlannedDisplay| plan_view(p)) =~= start.0);
    for k in 0..monitors.len()
        invariant
            targets@.len() < u32::MAX,
            lv == levels_view(levels@),
            used@.len() == targets@.len(),
            out@.map_values(|p: PlannedDisplay| plan_view(p)) == plan_upto(
                targets@,
                monitors@,
                lv,
                k as int,
            ).0,
            used@ == plan_upto(targets@, monitors@, lv, k as int).1,
            unnamed == plan_upto(targets@, monitors@, lv, k as int).2,
            out@.len() == trues(used@),
            unnamed <= out@.len(),
    {
        let m = &monitors[k];
        let cands = candidates_of(targets, &used, &m.gdi_name);
        proof {
            lemma_candidates(targets@, used@, m.gdi_name@, targets@.len() as int);
        }
        let names = names_of(targets, &cands);
        let physical = match_physical(&names, &m.physical);
        let ghost s0 = plan_upto(targets@, monitors@, lv, k as int);
        let ghost descriptions = m.physical@.map_values(|d: String| d@);
        assert(physical@ == match_upto(
            friendly_names(targets@, cands@),
            descriptions,
            descriptions.len() as int,
        ));
        for j in 0..cands.len()
            invariant
                targets@.len() < u32::MAX,
                lv == levels_view(levels@),
                physical@.len() == cands@.len(),
                forall|a: int|
                    0 <= a < cands@.len() ==> {
                        let t = #[trigger] cands@[a];
                        t < targets@.len() && !s0.1[t as int]
                    },
                forall|a: int, b: int| 0 <= a < b < cands@.len() ==> cands@[a] < cands@[b],
                s0.1.len() == targets@.len(),
                used@.len() == targets@.len(),
                out@.map_values(|p: PlannedDisplay| plan_view(p)) == plan_monitor_upto(
                    targets@,
                    lv,
                    m.gdi_name@,
                    k as int,
                    cands@,
                    physical@,
                    s0,
                    j as int,
                ).0,
                used@ == plan_monitor_upto(
                    targets@,
                    lv,
                    m.gdi_name@,
                    k as int,
                    cands@,
                    physical@,
                    s0,
                    j as int,
                ).1,
                unnamed == plan_monitor_upto(
                    targets@,
                    lv,
                    m.gdi_name@,
                    k as int,
                    cands@,
                    physical@,
                    s0,
                    j as int,
                ).2,
                forall|a: int| j <= a < cands@.len() ==> !used@[#[trigger] cands@[a] as int],
                out@.len() == trues(used@),
                unnamed <= out@.len(),
        {
            let t = cands[j];
            proof {
                lemma_trues_bound(used@);
            }
            let p = plan_one_display(
                &targets[t],
                levels,
                &m.gdi_name,
                k,
                t,
                physical[j],
                &mut unnamed,
            );
            proof {
                lemma_trues_set(used@, t as int);
            }
            used.set(t, true);
            let ghost before = out@;
            out.push(p);
            assert(out@.map_values(|p: PlannedDisplay| plan_view(p)) =~= before.map_values(
                |p: PlannedDisplay| plan_view(p),
            ).push(plan_view(p)));
            assert forall|a: int| j + 1 <= a < cands@.len() implies !used@[#[trigger] cands@[a] as int] by {
                assert(cands@[j as int] < cands@[a]);
            }
        }
    }
    proof {
        lemma_plan_distinct(targets@, monitors@, lv, monitors@.len() as int);
        let plan = plan_upto(targets@, monitors@, lv, monitors@.len() as int).0;
        assert forall|i: int| 0 <= i < out@.len() implies (#[trigger] out@[i]).target
            < targets@.len() && out@[i].monitor < monitors@.len() by {
            assert(plan_view(out@[i]) == plan[i]);
        }
    }
    out
}

proof fn lemma_trues_zero(s: Seq<bool>, n: int)
    requires
        0 <= n <= s.len(),
        forall|i: int| 0 <= i < s.len() ==> !s[i],
    ensures
        trues(s.take(n)) == 0,
    decreases n,
{
    if n > 0 {
        lemma_trues_zero(s, n - 1);
        assert(s.take(n).drop_last() =~= s.take(n - 1));
    }
}

/// The displays of a state come from distinct targets, each of them taken.
pub open spec fn distinct_taken(s: PlanState, n: nat) -> bool {
    &&& s.1.len() == n
    &&& forall|i: int| 0 <= i < s.0.len() ==> (#[trigger] s.0[i]).0 < n && s.1[s.0[i].0 as int]
    &&& forall|a: int, b: int| 0 <= a < b < s.0.len() ==> (#[trigger] s.0[a]).0 != (#[trigger] s.0[b]).0
}

proof fn lemma_monitor_keeps_distinct(
    targets: Seq<Target>,
    levels: Seq<(Seq<char>, u8)>,
    gdi: Seq<char>,
    monitor: int,
    cands: Seq<usize>,
    physical: Seq<Option<usize>>,
    start: PlanState,
    j: int,
)
    requires
        0 <= j <= cands.len(),
        distinct_taken(start, targets.len()),
        forall|a: int| 0 <= a < cands.len() ==> #[trigger] cands[a] < targets.len() && !start.1[cands[a] as int],
        forall|a: int, b: int| 0 <= a < b < cands.len() ==> #[trigger] cands[a] < #[trigger] cands[b],
    ensures
        distinct_taken(
            plan_monitor_upto(targets, levels, gdi, monitor, cands, physical, start, j),
            targets.len(),
        ),
        0 <= monitor <= usize::MAX && (forall|i: int|
            0 <= i < start.0.len() ==> (#[trigger] start.0[i]).1 <= monitor) ==> forall|i: int|
            0 <= i < plan_monitor_upto(targets, levels, gdi, monitor, cands, physical, start, j).0.len()
                ==> (#[trigger] plan_monitor_upto(
                targets,
                levels,
                gdi,
                monitor,
                cands,
                physical,
                start,
                j,
            ).0[i]).1 <= monitor,
        forall|a: int|
            j <= a < cands.len() ==> !(#[trigger] plan_monitor_upto(
                targets,
                levels,
                gdi,
                monitor,
                cands,
                physical,
                start,
                j,
            ).1[cands[a] as int]),
    decreases j,
{
    if j > 0 {
        lemma_monitor_keeps_distinct(targets, levels, gdi, monitor, cands, physical, start, j - 1);
        let s = plan_monitor_upto(targets, levels, gdi, monitor, cands, physical, start, j - 1);
        let r = plan_monitor_upto(targets, levels, gdi, monitor, cands, physical, start, j);
        let t = cands[j - 1];
        assert(!s.1[t as int]);
        assert(r.0.last().0 == t);
        assert forall|i: int| 0 <= i < r.0.len() implies (#[trigger] r.0[i]).0 < targets.len() && r.1[r.0[i].0 as int] by {
            if i < s.0.len() {
                assert(r.0[i] == s.0[i]);
            }
        }
        assert forall|i: int| 0 <= i < r.0.len() && 0 <= monitor <= usize::MAX && (forall|i: int|
            0 <= i < start.0.len() ==> (#[trigger] start.0[i]).1 <= monitor) implies (#[trigger] r.0[i]).1 <= monitor by {
            if i < s.0.len() {
                assert(r.0[i] == s.0[i]);
            }
        }
        assert forall|a: int, b: int| 0 <= a < b < r.0.len() implies (#[trigger] r.0[a]).0 != (#[trigger] r.0[b]).0 by {
            assert(r.0[a] == s.0[a]);
            if b < s.0.len() {
                assert(r.0[b] == s.0[b]);
            } else {
                assert(s.1[s.0[a].0 as int]);
            }
        }
        assert forall|a: int| j <= a < cands.len() implies !(#[trigger] r.1[cands[a] as int]) by {
            assert(cands[j - 1] < cands[a]);
            assert(!s.1[cands[a] as int]);
        }
    }
}

proof fn lemma_plan_distinct(
    targets: Seq<Target>,
    monitors: Seq<GdiMonitor>,
    levels: Seq<(Seq<char>, u8)>,
    k: int,
)
    requires
        0 <= k <= monitors.len(),
        targets.len() <= usize::MAX,
    ensures
        distinct_taken(plan_upto(targets, monitors, levels, k), targets.len()),
        monitors.len() <= usize::MAX ==> forall|i: int|
            0 <= i < plan_upto(targets, monitors, levels, k).0.len() ==> (#[trigger] plan_upto(
                targets,
                monitors,
                levels,
                k,
            ).0[i]).1 < k,
    decreases k,
{
    if k > 0 {
        lemma_plan_distinct(targets, monitors, levels, k - 1);
        let s = plan_upto(targets, monitors, levels, k - 1);
        let m = monitors[k - 1];
        let cands = candidates(targets, s.1, m.gdi_name@);
        let descriptions = m.physical@.map_values(|d: String| d@);
        let physical = match_upto(
            friendly_names(targets, cands),
            descriptions,
            descriptions.len() as int,
        );
        lemma_candidates(targets, s.1, m.gdi_name@, targets.len() as int);
        lemma_monitor_keeps_distinct(
            targets,
            levels,
            m.gdi_name@,
            k - 1,
            cands,
            physical,
            s,
            cands.len() as int,
        );
    }
}

/// A display target is shown by at most one display: no two displays of the plan come from
/// the same target, however many GDI monitors claim it.
pub proof fn law_each_target_shown_once(
    targets: Seq<Target>,
    monitors: Seq<GdiMonitor>,
    levels: Seq<(Seq<char>, u8)>,
)
    requires
        targets.len() <= usize::MAX,
    ensures
        forall|a: int, b: int|
            0 <= a < b < plan_upto(targets, monitors, levels, monitors.len() as int).0.len()
                ==> (#[trigger] plan_upto(targets, monitors, levels, monitors.len() as int).0[a]).0
                != (#[trigger] plan_upto(targets, monitors, levels, monitors.len() as int).0[b]).0,
{
    lemma_plan_distinct(targets, monitors, levels, monitors.len() as int);
}

/// The hardware control of a planned display, given what its physical monitor's DDC/CI
/// brightness read gave as (current, maximum): WMI's level, else a DDC/CI reading with a
/// maximum above zero as a rounded percentage, else none.
pub open spec fn spec_hardware_of(source: LevelSource, read: Option<(u32, u32)>) -> Option<
    (HardwareKind, u8),
> {
    match source {
        LevelSource::Wmi(level) => Some((HardwareKind::Wmi, level)),
        LevelSource::Physical(_) => match read {
            Some((current, max)) => if max > 0 {
                Some((HardwareKind::Ddc, spec_ddc_percent(current, max) as u8))
            } else {
                None
            },
            None => None,
        },
        LevelSource::Unavailable => None,
    }
}

pub fn hardware_of(source: LevelSource, read: Option<(u32, u32)>) -> (r: Option<(HardwareKind, u8)>)
    ensures
        r == spec_hardware_of(source, read),
{
    match source {
        LevelSource::Wmi(level) => Some((HardwareKind::Wmi, level)),
        LevelSource::Physical(_) => match read {
            Some((current, max)) => if max > 0 {
                Some((HardwareKind::Ddc, ddc_percent(current, max)))
            } else {
                None
            },
            None => None,
        },
        LevelSource::Unavailable => None,
    }
}

/// The display a planned display becomes, once its hardware control is known: identity and
/// name from the plan, place from its GDI monitor, and the rest from its target.
pub open spec fn spec_display_of(
    plan: PlannedDisplay,
    target: Target,
    bounds: Rect,
    hardware: Option<(HardwareKind, u8)>,
) -> Display {
    Display {
        id: plan.id,
        name: plan.name,
        bounds,
        internal: target.internal,
        hdr: target.hdr,
        hardware,
        sdr: target.sdr,
    }
}

pub fn display_of(
    plan: PlannedDisplay,
    target: &Target,
    bounds: Rect,
    hardware: Option<(HardwareKind, u8)>,
) -> (r: Display)
    ensures
        r == spec_display_of(plan, *target, bounds, hardware),
{
    Display {
        id: plan.id,
        name: plan.name,
        bounds,
        internal: target.internal,
        hdr: target.hdr,
        hardware,
        sdr: target.sdr,
    }
}

/// The displays of a plan, once each planned display's DDC/CI brightness was read: `reads[i]`
/// is what the read of the `i`-th planned display gave as (current, maximum), none where there
/// was nothing to read or it failed.
pub fn displays_of(
    plans: Vec<PlannedDisplay>,
    targets: &Vec<Target>,
    monitors: &Vec<GdiMonitor>,
    reads: &Vec<Option<(u32, u32)>>,
) -> (r: Vec<Display>)
    requires
        reads@.len() == plans@.len(),
        forall|i: int|
            0 <= i < plans@.len() ==> (#[trigger] plans@[i]).target < targets@.len()
                && plans@[i].monitor < monitors@.len(),
    ensures
        r@.len() == plans@.len(),
        forall|i: int|
            0 <= i < plans@.len() ==> #[trigger] r@[i] == spec_display_of(
                plans@[i],
                targets@[plans@[i].target as int],
                monitors@[plans@[i].monitor as int].bounds,
                spec_hardware_of(plans@[i].source, reads@[i]),
            ),
{
    let mut rest = plans;
    let mut out: Vec<Display> = Vec::new();
    let n = rest.len();
    for i in 0..n
        invariant
            n == plans@.len(),
            rest@ == plans@.skip(i as int),
            out@.len() == i,
            reads@.len() == plans@.len(),
            forall|k: int|
                0 <= k < plans@.len() ==> (#[trigger] plans@[k]).target < targets@.len()
                    && plans@[k].monitor < monitors@.len(),
            forall|k: int|
                0 <= k < i ==> #[trigger] out@[k] == spec_display_of(
                    plans@[k],
                    targets@[plans@[k].target as int],
                    monitors@[plans@[k].monitor as int].bounds,
                    spec_hardware_of(plans@[k].source, reads@[k]),
                ),
    {
        let plan = rest.remove(0);
        assert(plan == plans@[i as int]);
        assert(rest@ =~= plans@.skip(i + 1));
        let hardware = hardware_of(plan.source, reads[i]);
        let bounds = monitors[plan.monitor].bounds;
        let target = &targets[plan.target];
        let d = display_of(plan, target, bounds, hardware);
        out.push(d);
    }
    out
}

/// A Windows display has an SDR content brightness only where HDR is on: the white level is
/// read only for HDR targets, and the display takes its target's.
pub proof fn law_sdr_only_for_hdr(
    plan: PlannedDisplay,
    target: TargetRef,
    gdi_name: String,
    device_path: String,
    friendly_name: String,
    technology: u32,
    color_info: Option<u32>,
    white_level: Option<u32>,
    bounds: Rect,
    hardware: Option<(HardwareKind, u8)>,
)
    ensures
        ({
            let d = spec_display_of(
                plan,
                spec_target_of(
                    target,
                    gdi_name,
                    device_path,
                    friendly_name,
                    technology,
                    color_info,
                    white_level,
                ),
                bounds,
                hardware,
            );
            d.sdr is Some ==> d.hdr
        }),
{
}

} // verus!

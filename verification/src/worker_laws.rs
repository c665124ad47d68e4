//! What holds of the worker's decisions on every input.

use vstd::prelude::*;
use vstd::seq_lib::group_to_multiset_ensures;

use crate::backend::{Display, HardwareKind};
use crate::model::{Method, MonitorId, SoftwareDimMode};
use crate::text::spec_is_whitespace;
use crate::protocol::WorkerCmd;
use crate::settings::{Settings, spec_monitor};
use crate::backend::{
    BackendCall, ids_view, lemma_level_to_slider_range, spec_level_to_slider, spec_slider_to_level,
};
use crate::worker::{
    spec_info, RECENT_WRITE_MS, Model, gone_clears, assign_step, apply_model, after_batch, apply_upto, first_with_id,
    has_entry, software_mode, ddc_ids_upto, in_id_order, assign_upto, carried, entries_by_id, lemma_assign_keeps, recently_written,
    refresh_model, spec_reading, carried_entry, first_occurrence,
    Collected, Entry, Pending, any_visible, cap, collect, collect_cmd, collect_upto, const_updates, current,
    first_visible, insert_all, pend_insert, is_insert_pos, placed_before_or_with, sort_by_place,
    sorted_insert, spec_visible, set_all_model, step_model, spec_method_for, step_updates, stepped,
};

verus! {

/// A monitor the user forced to software dimming is dimmed in software.
pub proof fn law_forced_software_dims_in_software(s: Settings, d: Display)
    requires
        spec_monitor(s, d.id@).force_software,
    ensures
        spec_method_for(s, d).spec_is_software(),
{
}

/// Gamma ramps do not reach HDR output, so an HDR display is never dimmed with gamma.
pub proof fn law_no_gamma_on_hdr(s: Settings, d: Display)
    requires
        d.hdr,
    ensures
        spec_method_for(s, d) != Method::Gamma,
{
}

/// A monitor with DDC/CI is driven over DDC/CI unless the user forced software dimming, or its
/// HDR SDR brightness takes over.
pub proof fn law_ddc_when_available(s: Settings, d: Display, level: u8)
    requires
        d.hardware == Some((HardwareKind::Ddc, level)),
        !spec_monitor(s, d.id@).force_software,
        !(d.hdr && d.sdr is Some && s.hdr_sdr_brightness),
    ensures
        spec_method_for(s, d) == Method::Ddc,
{
}

/// A display that is dimmed in software is dimmed the way the settings ask: with gamma exactly
/// where they ask for gamma and the display is not HDR, else with the overlay. Software
/// dimming comes where the user forced it on the monitor, and, where the settings allow it as
/// a fallback, for a display with no hardware control and no SDR content brightness in use.
pub proof fn law_software_dimming_as_the_settings_ask(s: Settings, d: Display)
    ensures
        spec_method_for(s, d).spec_is_software() ==> (spec_method_for(s, d) == Method::Gamma
            <==> (s.software_dim_mode == SoftwareDimMode::Gamma && !d.hdr)),
        spec_monitor(s, d.id@).force_software || (s.software_fallback && d.hardware is None && !(
        d.hdr && d.sdr is Some && s.hdr_sdr_brightness)) ==> spec_method_for(s, d).spec_is_software(),
{
}

/// How a monitor the user did not force to software dimming is dimmed, first match first: the
/// SDR content brightness of an HDR display where the user allows it, then DDC/CI, then the
/// system's own control, then software dimming where the settings allow it as a fallback, and
/// else not at all.
pub proof fn law_method_by_priority(s: Settings, d: Display)
    requires
        !spec_monitor(s, d.id@).force_software,
    ensures
        d.hdr && d.sdr is Some && s.hdr_sdr_brightness ==> spec_method_for(s, d) == Method::Sdr,
        !(d.hdr && d.sdr is Some && s.hdr_sdr_brightness) ==> {
            &&& d.hardware matches Some((HardwareKind::Ddc, _)) ==> spec_method_for(s, d)
                == Method::Ddc
            &&& d.hardware matches Some((HardwareKind::Wmi, _)) ==> spec_method_for(s, d)
                == Method::Native
            &&& d.hardware is None && !s.software_fallback ==> spec_method_for(s, d)
                == Method::Unsupported
            &&& d.hardware is None && s.software_fallback ==> spec_method_for(
                s,
                d,
            ).spec_is_software()
        },
{
}

/// The panel is told of each monitor what its entry holds: identity, method, slider, whether
/// it is built in, HDR, or has any hardware control, and whether the user hid it.
pub proof fn law_info_reports_the_entry(s: Settings, e: Entry)
    ensures
        spec_info(s, e).method == e.method,
        spec_info(s, e).brightness == e.value,
        spec_info(s, e).internal == e.display.internal,
        spec_info(s, e).hdr == e.display.hdr,
        spec_info(s, e).has_hardware == (e.display.hardware is Some || e.display.sdr is Some),
        spec_info(s, e).hidden == spec_monitor(s, e.display.id@).hidden,
{
}

/// The panel is told the name the user gave a monitor, where it holds more than white space,
/// and else the name the display reports; the reported name is always passed on too.
pub proof fn law_the_users_name_is_shown(s: Settings, e: Entry)
    ensures
        spec_info(s, e).hardware_name == e.display.name,
        spec_info(s, e).id == e.display.id,
        ({
            let name = spec_monitor(s, e.display.id@).name;
            let given = name is Some && exists|i: int|
                0 <= i < name->Some_0@.len() && !spec_is_whitespace(#[trigger] name->Some_0@[i]);
            &&& given ==> spec_info(s, e).name == name->Some_0
            &&& !given ==> spec_info(s, e).name == e.display.name
        }),
{
}

/// The entries are in place order: left to right, then top to bottom.
pub open spec fn sorted_by_place(s: Seq<Entry>) -> bool {
    forall|i: int, j: int| 0 <= i < j < s.len() ==> placed_before_or_with(s[i], s[j])
}

proof fn lemma_insert_pos_exists(s: Seq<Entry>, e: Entry, n: int) -> (k: int)
    requires
        0 <= n <= s.len(),
    ensures
        0 <= k <= n,
        forall|j: int| 0 <= j < k ==> placed_before_or_with(#[trigger] s[j], e),
        k < n ==> !placed_before_or_with(s[k], e),
    decreases n,
{
    if n == 0 {
        0
    } else {
        let k1 = lemma_insert_pos_exists(s, e, n - 1);
        if k1 < n - 1 {
            k1
        } else if placed_before_or_with(s[n - 1], e) {
            n
        } else {
            n - 1
        }
    }
}

proof fn lemma_sorted_insert(s: Seq<Entry>, e: Entry)
    requires
        sorted_by_place(s),
    ensures
        sorted_by_place(sorted_insert(s, e)),
        sorted_insert(s, e).to_multiset() == s.to_multiset().insert(e),
{
    broadcast use group_to_multiset_ensures;

    let w = lemma_insert_pos_exists(s, e, s.len() as int);
    assert(is_insert_pos(s, e, w));
    let k = choose|k: int| is_insert_pos(s, e, k);
    let r = s.insert(k, e);
    assert forall|i: int, j: int| 0 <= i < j < r.len() implies placed_before_or_with(r[i], r[j]) by {
        if j < k {
            assert(r[i] == s[i] && r[j] == s[j]);
        } else if j == k {
            assert(r[i] == s[i]);
        } else if i < k {
            assert(r[i] == s[i] && r[j] == s[j - 1]);
        } else if i == k {
            assert(r[j] == s[j - 1]);
            assert(placed_before_or_with(s[k], s[j - 1]) || k == j - 1);
        } else {
            assert(r[i] == s[i - 1] && r[j] == s[j - 1]);
        }
    }
}

/// A refresh lists the monitors in place order, and lists each display it was given exactly
/// once: ordering drops and repeats nothing.
pub proof fn law_sort_by_place(s: Seq<Entry>)
    ensures
        sorted_by_place(sort_by_place(s)),
        sort_by_place(s).to_multiset() == s.to_multiset(),
    decreases s.len(),
{
    broadcast use group_to_multiset_ensures;

    if s.len() == 0 {
    } else {
        law_sort_by_place(s.drop_last());
        lemma_sorted_insert(sort_by_place(s.drop_last()), s.last());
        assert(s.drop_last().push(s.last()) == s);
    }
}

proof fn lemma_insert_all_has(p: Pending, ups: Seq<(MonitorId, u8)>, v: u8)
    requires
        forall|i: int| 0 <= i < ups.len() ==> (#[trigger] ups[i]).1 == v,
    ensures
        forall|i: int|
            0 <= i < ups.len() ==> insert_all(p, ups).map.contains_key(#[trigger] ups[i].0@)
                && insert_all(p, ups).map[ups[i].0@] == v,
    decreases ups.len(),
{
    if ups.len() > 0 {
        let u = ups.drop_last();
        assert forall|i: int| 0 <= i < u.len() implies (#[trigger] u[i]).1 == v by {
            assert(u[i] == ups[i]);
        }
        lemma_insert_all_has(p, u, v);
        let q = insert_all(p, u);
        let r = insert_all(p, ups);
        assert(ups.last() == ups[ups.len() - 1]);
        assert(r == pend_insert(q, ups.last().0, ups.last().1));
        assert forall|i: int| 0 <= i < ups.len() implies r.map.contains_key(#[trigger] ups[i].0@)
            && r.map[ups[i].0@] == v by {
            if i < u.len() {
                assert(u[i] == ups[i]);
            }
        }
    }
}

proof fn lemma_const_updates_cover(s: Settings, entries: Seq<Entry>, v: u8, n: int, j: int)
    requires
        0 <= j < n <= entries.len(),
        spec_visible(s, entries[j]),
    ensures
        exists|i: int|
            0 <= i < const_updates(s, entries, v, n).len() && (#[trigger] const_updates(
                s,
                entries,
                v,
                n,
            )[i]).0 == entries[j].display.id,
    decreases n,
{
    let u = const_updates(s, entries, v, n - 1);
    let r = const_updates(s, entries, v, n);
    if j < n - 1 {
        lemma_const_updates_cover(s, entries, v, n - 1, j);
        let i = choose|i: int| 0 <= i < u.len() && (#[trigger] u[i]).0 == entries[j].display.id;
        assert(r[i] == u[i]);
    } else {
        assert(r[u.len() as int].0 == entries[j].display.id);
    }
}

/// Setting every monitor at once reaches every monitor the panel shows, all with the same
/// slider position.
pub proof fn law_set_all_reaches_every_visible_monitor(
    p: Pending,
    s: Settings,
    entries: Seq<Entry>,
    v: u8,
)
    ensures
        forall|j: int|
            0 <= j < entries.len() && spec_visible(s, #[trigger] entries[j]) ==> set_all_model(
                p,
                s,
                entries,
                v,
            ).map.contains_key(entries[j].display.id@) && set_all_model(p, s, entries, v).map[
                entries[j].display.id@] == v,
{
    let n = entries.len() as int;
    lemma_const_updates_values(s, entries, v, n);
    lemma_insert_all_has(p, const_updates(s, entries, v, n), v);
    assert forall|j: int| 0 <= j < entries.len() && spec_visible(s, #[trigger] entries[j]) implies set_all_model(
        p,
        s,
        entries,
        v,
    ).map.contains_key(entries[j].display.id@) && set_all_model(p, s, entries, v).map[
        entries[j].display.id@] == v by {
        lemma_const_updates_cover(s, entries, v, n, j);
        let u = const_updates(s, entries, v, n);
        let i = choose|i: int| 0 <= i < u.len() && (#[trigger] u[i]).0 == entries[j].display.id;
        assert(u[i].0@ == entries[j].display.id@);
    }
}

/// Every monitor the panel shows has the slider position `v` pending.
pub open spec fn all_visible_at(p: Pending, s: Settings, entries: Seq<Entry>, v: u8) -> bool {
    forall|j: int|
        0 <= j < entries.len() && spec_visible(s, #[trigger] entries[j]) ==> p.map.contains_key(
            entries[j].display.id@,
        ) && p.map[entries[j].display.id@] == v
}

/// With linked levels, moving one monitor's slider moves every monitor the panel shows to the
/// same position, and a step moves them all to the same position too.
pub proof fn law_linked_levels_move_together(c: Collected, entries: Seq<Entry>, cmd: WorkerCmd)
    requires
        c.settings.link_levels,
        !c.shutdown,
        cmd is SetBrightness || cmd is Step,
    ensures
        exists|v: u8| #[trigger]
            all_visible_at(collect_cmd(c, entries, cmd).pending, c.settings, entries, v),
{
    match cmd {
        WorkerCmd::SetBrightness { id, value } => {
            law_set_all_reaches_every_visible_monitor(c.pending, c.settings, entries, cap(value));
            assert(all_visible_at(
                collect_cmd(c, entries, cmd).pending,
                c.settings,
                entries,
                cap(value),
            ));
        },
        WorkerCmd::Step(delta) => {
            if any_visible(c.settings, entries) {
                let j0 = choose|j: int| first_visible(c.settings, entries, j);
                let v = stepped(current(c.pending, entries[j0]), delta as int);
                law_set_all_reaches_every_visible_monitor(c.pending, c.settings, entries, v);
                assert(all_visible_at(collect_cmd(c, entries, cmd).pending, c.settings, entries, v));
            } else {
                assert(all_visible_at(collect_cmd(c, entries, cmd).pending, c.settings, entries, 0));
            }
        },
        _ => {},
    }
}

/// Some monitor the panel shows has the identity.
pub open spec fn shown_id(s: Settings, entries: Seq<Entry>, k: Seq<char>) -> bool {
    exists|j: int|
        0 <= j < entries.len() && spec_visible(s, #[trigger] entries[j]) && entries[j].display.id@
            == k
}

proof fn lemma_insert_all_other(p: Pending, ups: Seq<(MonitorId, u8)>, k: Seq<char>)
    requires
        forall|i: int| 0 <= i < ups.len() ==> (#[trigger] ups[i]).0@ != k,
    ensures
        insert_all(p, ups).map.contains_key(k) == p.map.contains_key(k),
        p.map.contains_key(k) ==> insert_all(p, ups).map[k] == p.map[k],
    decreases ups.len(),
{
    if ups.len() > 0 {
        let u = ups.drop_last();
        assert forall|i: int| 0 <= i < u.len() implies (#[trigger] u[i]).0@ != k by {
            assert(u[i] == ups[i]);
        }
        lemma_insert_all_other(p, u, k);
        assert(ups.last() == ups[ups.len() - 1]);
    }
}

proof fn lemma_const_updates_keys(s: Settings, entries: Seq<Entry>, v: u8, n: int, k: Seq<char>)
    requires
        n <= entries.len(),
        !shown_id(s, entries, k),
    ensures
        forall|i: int|
            0 <= i < const_updates(s, entries, v, n).len() ==> (#[trigger] const_updates(
                s,
                entries,
                v,
                n,
            )[i]).0@ != k,
    decreases n,
{
    if n > 0 {
        lemma_const_updates_keys(s, entries, v, n - 1, k);
        let u = const_updates(s, entries, v, n - 1);
        let r = const_updates(s, entries, v, n);
        assert forall|i: int| 0 <= i < r.len() implies (#[trigger] r[i]).0@ != k by {
            if i < u.len() {
                assert(r[i] == u[i]);
            } else {
                assert(spec_visible(s, entries[n - 1]));
            }
        }
    }
}

proof fn lemma_step_updates_keys(
    p: Pending,
    s: Settings,
    entries: Seq<Entry>,
    delta: int,
    n: int,
    k: Seq<char>,
)
    requires
        n <= entries.len(),
        !shown_id(s, entries, k),
    ensures
        forall|i: int|
            0 <= i < step_updates(p, s, entries, delta, n).len() ==> (#[trigger] step_updates(
                p,
                s,
                entries,
                delta,
                n,
            )[i]).0@ != k,
    decreases n,
{
    if n > 0 {
        lemma_step_updates_keys(p, s, entries, delta, n - 1, k);
        let u = step_updates(p, s, entries, delta, n - 1);
        let r = step_updates(p, s, entries, delta, n);
        assert forall|i: int| 0 <= i < r.len() implies (#[trigger] r[i]).0@ != k by {
            if i < u.len() {
                assert(r[i] == u[i]);
            } else {
                assert(spec_visible(s, entries[n - 1]));
            }
        }
    }
}

/// Setting all monitors or stepping them leaves alone every monitor the panel does not show:
/// hidden ones, and ones without a way to change their brightness.
pub proof fn law_hidden_monitors_stay(
    p: Pending,
    s: Settings,
    entries: Seq<Entry>,
    v: u8,
    delta: int,
    k: Seq<char>,
)
    requires
        !shown_id(s, entries, k),
    ensures
        set_all_model(p, s, entries, v).map.contains_key(k) == p.map.contains_key(k),
        p.map.contains_key(k) ==> set_all_model(p, s, entries, v).map[k] == p.map[k],
        step_model(p, s, entries, delta).map.contains_key(k) == p.map.contains_key(k),
        p.map.contains_key(k) ==> step_model(p, s, entries, delta).map[k] == p.map[k],
{
    let n = entries.len() as int;
    lemma_const_updates_keys(s, entries, v, n, k);
    lemma_insert_all_other(p, const_updates(s, entries, v, n), k);
    if s.link_levels {
        if any_visible(s, entries) {
            let j = choose|j: int| first_visible(s, entries, j);
            let w = stepped(current(p, entries[j]), delta);
            lemma_const_updates_keys(s, entries, w, n, k);
            lemma_insert_all_other(p, const_updates(s, entries, w, n), k);
        }
    } else {
        lemma_step_updates_keys(p, s, entries, delta, n, k);
        lemma_insert_all_other(p, step_updates(p, s, entries, delta, n), k);
    }
}

proof fn lemma_insert_all_values(p: Pending, ups: Seq<(MonitorId, u8)>, bound: u8)
    requires
        forall|k: Seq<char>| #[trigger] p.map.contains_key(k) ==> p.map[k] <= bound,
        forall|i: int| 0 <= i < ups.len() ==> (#[trigger] ups[i]).1 <= bound,
    ensures
        forall|k: Seq<char>| #[trigger]
            insert_all(p, ups).map.contains_key(k) ==> insert_all(p, ups).map[k] <= bound,
    decreases ups.len(),
{
    if ups.len() > 0 {
        assert forall|i: int| 0 <= i < ups.drop_last().len() implies (
        #[trigger] ups.drop_last()[i]).1 <= bound by {
            assert(ups.drop_last()[i] == ups[i]);
        }
        lemma_insert_all_values(p, ups.drop_last(), bound);
        assert(ups.last() == ups[ups.len() - 1]);
        let q = insert_all(p, ups.drop_last());
        let r = insert_all(p, ups);
        assert(r == pend_insert(q, ups.last().0, ups.last().1));
        assert forall|k: Seq<char>| #[trigger] r.map.contains_key(k) implies r.map[k] <= bound by {
            if k != ups.last().0@ {
                assert(q.map.contains_key(k));
            }
        }
    }
}

proof fn lemma_const_updates_values(s: Settings, entries: Seq<Entry>, v: u8, n: int)
    ensures
        forall|i: int|
            0 <= i < const_updates(s, entries, v, n).len() ==> (#[trigger] const_updates(
                s,
                entries,
                v,
                n,
            )[i]).1 == v,
    decreases n,
{
    if n > 0 {
        lemma_const_updates_values(s, entries, v, n - 1);
        let u = const_updates(s, entries, v, n - 1);
        let r = const_updates(s, entries, v, n);
        assert forall|i: int| 0 <= i < r.len() implies (#[trigger] r[i]).1 == v by {
            if i < u.len() {
                assert(r[i] == u[i]);
            }
        }
    }
}

proof fn lemma_step_updates_values(p: Pending, s: Settings, entries: Seq<Entry>, delta: int, n: int)
    ensures
        forall|i: int|
            0 <= i < step_updates(p, s, entries, delta, n).len() ==> (#[trigger] step_updates(
                p,
                s,
                entries,
                delta,
                n,
            )[i]).1 <= 100,
    decreases n,
{
    if n > 0 {
        lemma_step_updates_values(p, s, entries, delta, n - 1);
        let u = step_updates(p, s, entries, delta, n - 1);
        let r = step_updates(p, s, entries, delta, n);
        assert forall|i: int| 0 <= i < r.len() implies (#[trigger] r[i]).1 <= 100 by {
            if i < u.len() {
                assert(r[i] == u[i]);
            }
        }
    }
}

proof fn lemma_collect_in_range(c: Collected, entries: Seq<Entry>, cmds: Seq<WorkerCmd>, n: int)
    requires
        forall|k: Seq<char>| #[trigger] c.pending.map.contains_key(k) ==> c.pending.map[k] <= 100,
        n <= cmds.len(),
    ensures
        forall|k: Seq<char>| #[trigger]
            collect_upto(c, entries, cmds, n).pending.map.contains_key(k) ==> collect_upto(
                c,
                entries,
                cmds,
                n,
            ).pending.map[k] <= 100,
    decreases n,
{
    if n > 0 {
        lemma_collect_in_range(c, entries, cmds, n - 1);
        let c1 = collect_upto(c, entries, cmds, n - 1);
        let len = entries.len() as int;
        if !c1.shutdown {
            match cmds[n - 1] {
                WorkerCmd::SetBrightness { id, value } => {
                    lemma_const_updates_values(c1.settings, entries, cap(value), len);
                    lemma_insert_all_values(
                        c1.pending,
                        const_updates(c1.settings, entries, cap(value), len),
                        100,
                    );
                },
                WorkerCmd::SetAll(value) => {
                    lemma_const_updates_values(c1.settings, entries, cap(value), len);
                    lemma_insert_all_values(
                        c1.pending,
                        const_updates(c1.settings, entries, cap(value), len),
                        100,
                    );
                },
                WorkerCmd::Step(delta) => {
                    let p = c1.pending;
                    let s = c1.settings;
                    if s.link_levels {
                        if any_visible(s, entries) {
                            let j = choose|j: int| first_visible(s, entries, j);
                            let v = stepped(current(p, entries[j]), delta as int);
                            lemma_const_updates_values(s, entries, v, len);
                            lemma_insert_all_values(p, const_updates(s, entries, v, len), 100);
                        }
                    } else {
                        lemma_step_updates_values(p, s, entries, delta as int, len);
                        lemma_insert_all_values(
                            p,
                            step_updates(p, s, entries, delta as int, len),
                            100,
                        );
                    }
                },
                _ => {},
            }
        }
    }
}

/// Whatever a batch asks for, every slider position it sets lies between 0 and 100.
pub proof fn law_pending_positions_in_range(
    settings: Settings,
    entries: Seq<Entry>,
    cmds: Seq<WorkerCmd>,
)
    ensures
        forall|k: Seq<char>| #[trigger]
            collect(settings, entries, cmds).pending.map.contains_key(k) ==> collect(
                settings,
                entries,
                cmds,
            ).pending.map[k] <= 100,
{
    let c0 = Collected {
        settings,
        pending: Pending { keys: Seq::empty(), map: Map::empty() },
        refresh: false,
        reassign: false,
        turn_off: false,
        shutdown: false,
    };
    lemma_collect_in_range(c0, entries, cmds, cmds.len() as int);
}

proof fn lemma_collect_after_shutdown(
    c: Collected,
    entries: Seq<Entry>,
    cmds: Seq<WorkerCmd>,
    m: int,
    n: int,
)
    requires
        0 <= m <= n <= cmds.len(),
        collect_upto(c, entries, cmds, m).shutdown,
    ensures
        collect_upto(c, entries, cmds, n) == collect_upto(c, entries, cmds, m),
    decreases n,
{
    if n > m {
        lemma_collect_after_shutdown(c, entries, cmds, m, n - 1);
    }
}

proof fn lemma_collect_prefix(
    c: Collected,
    entries: Seq<Entry>,
    a: Seq<WorkerCmd>,
    b: Seq<WorkerCmd>,
    n: int,
)
    requires
        0 <= n <= a.len(),
        n <= b.len(),
        forall|i: int| 0 <= i < n ==> a[i] == b[i],
    ensures
        collect_upto(c, entries, a, n) == collect_upto(c, entries, b, n),
    decreases n,
{
    if n > 0 {
        lemma_collect_prefix(c, entries, a, b, n - 1);
    }
}

/// Nothing in a batch after a shutdown counts: the worker stops with what came before it.
pub proof fn law_nothing_after_shutdown(
    settings: Settings,
    entries: Seq<Entry>,
    before: Seq<WorkerCmd>,
    after: Seq<WorkerCmd>,
)
    ensures
        collect(settings, entries, before.push(WorkerCmd::Shutdown) + after) == collect(
            settings,
            entries,
            before.push(WorkerCmd::Shutdown),
        ),
        collect(settings, entries, before.push(WorkerCmd::Shutdown)).shutdown,
{
    let c0 = Collected {
        settings,
        pending: Pending { keys: Seq::empty(), map: Map::empty() },
        refresh: false,
        reassign: false,
        turn_off: false,
        shutdown: false,
    };
    let head = before.push(WorkerCmd::Shutdown);
    let all = head + after;
    let m = head.len() as int;
    lemma_collect_prefix(c0, entries, all, head, m);
    assert(collect_upto(c0, entries, head, m).shutdown);
    lemma_collect_after_shutdown(c0, entries, all, m, all.len() as int);
}

/// A monitor driven in hardware shows the level its hardware reports, mapped into its range.
pub open spec fn shows_reading(s: Settings, e: Entry) -> bool {
    let ms = spec_monitor(s, e.display.id@);
    spec_reading(e.display, e.method) matches Some(p) && e.value == spec_level_to_slider(
        p,
        ms.min,
        ms.max,
    )
}

/// Driven in hardware (DDC/CI, the system's control, or SDR brightness) and not written in
/// the last moments.
pub open spec fn settled_hardware(e: Entry, now: u64) -> bool {
    &&& !e.method.spec_is_software()
    &&& e.method != Method::Unsupported
    &&& !recently_written(e.last_write, now)
}

proof fn lemma_assign_reads(m: Model, n: int, now: u64)
    requires
        0 <= n <= m.entries.len(),
        forall|k: int| 0 <= k < m.entries.len() ==> (#[trigger] m.entries[k]).method == Method::Unsupported,
    ensures
        forall|k: int|
            0 <= k < n && settled_hardware(#[trigger] assign_upto(m, n, now).entries[k], now)
                ==> shows_reading(m.settings, assign_upto(m, n, now).entries[k]),
    decreases n,
{
    if n > 0 {
        lemma_assign_reads(m, n - 1, now);
        lemma_assign_keeps(m, n - 1, now);
        let a = assign_upto(m, n - 1, now);
        let b = assign_upto(m, n, now);
        assert(b == assign_step(a, n - 1, now));
        assert(a.entries[n - 1] == m.entries[n - 1]);
        let e = a.entries[n - 1];
        let new = spec_method_for(a.settings, e.display);
        assert(a.settings == m.settings);
        assert(e.method == Method::Unsupported);
        assert(!new.spec_is_software() && new != Method::Unsupported ==> spec_reading(
            e.display,
            new,
        ) is Some);
        assert forall|k: int|
            0 <= k < n && settled_hardware(#[trigger] b.entries[k], now) implies shows_reading(
            m.settings,
            b.entries[k],
        ) by {
            if k < n - 1 {
                assert(b.entries[k] == a.entries[k]);
            } else {
                let ms = spec_monitor(m.settings, e.display.id@);
                if let Some(p) = spec_reading(e.display, new) {
                    lemma_level_to_slider_range(p, ms.min, ms.max);
                }
                assert(b.entries[k].method == new);
                assert(b.entries[k].display == e.display);
                assert(b.entries[k].last_write == e.last_write);
            }
        }
    }
}

/// A refresh shows what the hardware reports: every monitor driven in hardware that was not
/// written in the last moments gets the slider of the level its hardware reports. (One written
/// just before may still report its old level, so it keeps its slider.)
pub proof fn law_refresh_reads_the_hardware(m: Model, ds: Seq<Display>, now: u64)
    ensures
        forall|i: int|
            0 <= i < refresh_model(m, ds, now).entries.len() && settled_hardware(
                #[trigger] refresh_model(m, ds, now).entries[i],
                now,
            ) ==> shows_reading(m.settings, refresh_model(m, ds, now).entries[i]),
{
    broadcast use group_to_multiset_ensures;

    let c = carried(ds, entries_by_id(m.entries), now);
    let sorted = sort_by_place(c);
    law_sort_by_place(c);
    let clears = gone_clears(m.entries, ds);
    let pre = Model { entries: sorted, calls: m.calls + clears, ..m };
    assert forall|k: int| 0 <= k < sorted.len() implies (#[trigger] sorted[k]).method
        == Method::Unsupported by {
        assert(sorted.to_multiset().count(sorted[k]) > 0);
        assert(c.to_multiset().count(sorted[k]) > 0);
        assert(c.contains(sorted[k]));
        let j = choose|j: int| 0 <= j < c.len() && c[j] == sorted[k];
        assert(c[j].method == Method::Unsupported);
    }
    lemma_assign_reads(pre, sorted.len() as int, now);
    lemma_assign_keeps(pre, sorted.len() as int, now);
    let r = assign_upto(pre, sorted.len() as int, now);
    assert(refresh_model(m, ds, now) == r);
    assert forall|i: int|
        0 <= i < r.entries.len() && settled_hardware(#[trigger] r.entries[i], now) implies shows_reading(
        m.settings,
        r.entries[i],
    ) by {}
}

proof fn lemma_last_entry_by_id(s: Seq<Entry>, j: int)
    requires
        0 <= j < s.len(),
        forall|k: int| j < k < s.len() ==> (#[trigger] s[k]).display.id@ != s[j].display.id@,
    ensures
        entries_by_id(s).contains_key(s[j].display.id@),
        entries_by_id(s)[s[j].display.id@] == s[j],
    decreases s.len(),
{
    if j < s.len() - 1 {
        let t = s.drop_last();
        assert forall|k: int| j < k < t.len() implies (#[trigger] t[k]).display.id@ != t[j].display.id@ by {
            assert(t[k] == s[k]);
        }
        lemma_last_entry_by_id(t, j);
        assert(s.last() == s[s.len() - 1]);
    }
}

proof fn lemma_assign_carries(m: Model, n: int, now: u64, k: int)
    requires
        0 <= k < n <= m.entries.len(),
        m.entries[k].method == Method::Unsupported,
    ensures
        ({
            let e = m.entries[k];
            let r = assign_upto(m, n, now).entries[k];
            &&& r.display == e.display
            &&& r.last_write == e.last_write
            &&& r.method == spec_method_for(m.settings, e.display)
            &&& !r.method.spec_is_software() && recently_written(e.last_write, now) ==> r.value
                == e.value
        }),
    decreases n,
{
    lemma_assign_keeps(m, n - 1, now);
    if n - 1 > k {
        lemma_assign_carries(m, n - 1, now, k);
        let a = assign_upto(m, n - 1, now);
        assert(assign_upto(m, n, now) == assign_step(a, n - 1, now));
        assert(assign_step(a, n - 1, now).entries[k] == a.entries[k]);
    } else {
        let a = assign_upto(m, n - 1, now);
        assert(assign_upto(m, n, now) == assign_step(a, n - 1, now));
        assert(a.entries[k] == m.entries[k]);
    }
}

/// A refresh trusts a write of the last moments over what the monitor reports, since a monitor
/// can report its old level for a moment after a write: a monitor written within
/// `RECENT_WRITE_MS` before the refresh that is found again keeps the time of that write, and,
/// where it is not dimmed in software, its slider.
pub proof fn law_refresh_keeps_a_recent_write(
    m: Model,
    ds: Seq<Display>,
    now: u64,
    j: int,
    i: int,
    t: u64,
)
    requires
        0 <= j < m.entries.len(),
        0 <= i < ds.len(),
        m.entries[j].display.id@ == ds[i].id@,
        // the entry the monitor had: the last with its identity
        forall|k: int| j < k < m.entries.len() ==> (#[trigger] m.entries[k]).display.id@ != ds[i].id@,
        // the first display found with that identity
        forall|k: int| 0 <= k < i ==> (#[trigger] ds[k]).id@ != ds[i].id@,
        m.entries[j].last_write == Some(t),
        now < t || now - t < RECENT_WRITE_MS,
    ensures
        exists|k: int|
            0 <= k < refresh_model(m, ds, now).entries.len() && {
                let e = #[trigger] refresh_model(m, ds, now).entries[k];
                &&& e.display == ds[i]
                &&& e.last_write == Some(t)
                &&& e.method == spec_method_for(m.settings, ds[i])
                &&& !e.method.spec_is_software() ==> e.value == m.entries[j].value
            },
{
    broadcast use group_to_multiset_ensures;

    let old = entries_by_id(m.entries);
    lemma_last_entry_by_id(m.entries, j);
    let c = carried(ds, old, now);
    assert(first_occurrence(ds, i));
    assert(c[i] == carried_entry(ds[i], Some(m.entries[j]), now));
    let sorted = sort_by_place(c);
    law_sort_by_place(c);
    assert(c.to_multiset().count(c[i]) > 0);
    assert(sorted.to_multiset().count(c[i]) > 0);
    assert(sorted.contains(c[i]));
    let k = choose|k: int| 0 <= k < sorted.len() && sorted[k] == c[i];
    let clears = gone_clears(m.entries, ds);
    let pre = Model { entries: sorted, calls: m.calls + clears, ..m };
    lemma_assign_carries(pre, sorted.len() as int, now, k);
    lemma_assign_keeps(pre, sorted.len() as int, now);
    let r = assign_upto(pre, sorted.len() as int, now);
    assert(refresh_model(m, ds, now) == r);
    assert(0 <= k < r.entries.len());
    let e = r.entries[k];
    assert(e.display == ds[i] && e.last_write == Some(t));
    assert(!e.method.spec_is_software() ==> e.value == m.entries[j].value);
}

proof fn lemma_entry_by_id_from(s: Seq<Entry>, id: Seq<char>)
    requires
        entries_by_id(s).contains_key(id),
    ensures
        exists|j: int| 0 <= j < s.len() && (#[trigger] s[j]).display.id@ == id && entries_by_id(s)[id] == s[j],
    decreases s.len(),
{
    if s.last().display.id@ != id {
        lemma_entry_by_id_from(s.drop_last(), id);
        let j = choose|j: int| 0 <= j < s.drop_last().len() && (#[trigger] s.drop_last()[j]).display.id@
            == id && entries_by_id(s.drop_last())[id] == s.drop_last()[j];
        assert(s[j] == s.drop_last()[j]);
    } else {
        assert(s[s.len() - 1] == s.last());
    }
}

/// After a refresh every display found is listed, with the method the settings give it, and
/// the only write time it carries is that of a write within `RECENT_WRITE_MS` before the
/// refresh, to a monitor with its identity; older writes are forgotten, and a new monitor has
/// none.
pub proof fn law_refresh_lists_each_display(m: Model, ds: Seq<Display>, now: u64, i: int)
    requires
        0 <= i < ds.len(),
    ensures
        exists|k: int|
            0 <= k < refresh_model(m, ds, now).entries.len() && {
                let e = #[trigger] refresh_model(m, ds, now).entries[k];
                &&& e.display == ds[i]
                &&& e.method == spec_method_for(m.settings, ds[i])
                &&& e.last_write matches Some(t) ==> (now < t || now - t < RECENT_WRITE_MS) && exists|
                    j: int,
                | 0 <= j < m.entries.len() && (#[trigger] m.entries[j]).display.id@ == ds[i].id@
                    && m.entries[j].last_write == Some(t)
            },
{
    broadcast use group_to_multiset_ensures;

    let old = entries_by_id(m.entries);
    let c = carried(ds, old, now);
    if old.contains_key(ds[i].id@) {
        lemma_entry_by_id_from(m.entries, ds[i].id@);
    }
    let sorted = sort_by_place(c);
    law_sort_by_place(c);
    assert(c.to_multiset().count(c[i]) > 0);
    assert(sorted.to_multiset().count(c[i]) > 0);
    assert(sorted.contains(c[i]));
    let k = choose|k: int| 0 <= k < sorted.len() && sorted[k] == c[i];
    let clears = gone_clears(m.entries, ds);
    let pre = Model { entries: sorted, calls: m.calls + clears, ..m };
    lemma_assign_carries(pre, sorted.len() as int, now, k);
    lemma_assign_keeps(pre, sorted.len() as int, now);
    let r = assign_upto(pre, sorted.len() as int, now);
    assert(refresh_model(m, ds, now) == r);
    assert(0 <= k < r.entries.len());
    let e = r.entries[k];
    assert(e.display == ds[i] && e.last_write == c[i].last_write);
}

/// Moving a monitor's slider writes the level of that slider position in the monitor's range
/// to that monitor, by its method: its hardware control, its SDR content brightness, or
/// software dimming in its way; a monitor without a method, or an identity without a monitor,
/// gets no write.
pub proof fn law_slider_writes_its_level(m: Model, id: Seq<char>, value: u8, accepted: bool, now: u64)
    ensures
        !has_entry(m.entries, id) ==> apply_model(m, id, value, accepted, now).calls == m.calls,
        has_entry(m.entries, id) ==> {
            let e = m.entries[choose|j: int| first_with_id(m.entries, id, j)];
            let ms = spec_monitor(m.settings, id);
            let level = spec_slider_to_level(value, ms.min, ms.max) as u8;
            let calls = apply_model(m, id, value, accepted, now).calls;
            &&& (e.method == Method::Ddc || e.method == Method::Native) ==> calls == m.calls.push(
                BackendCall::SetHardware { id: Ghost(id), percent: level },
            )
            &&& e.method == Method::Sdr ==> calls == m.calls.push(
                BackendCall::SetSdr { id: Ghost(id), percent: level },
            )
            &&& e.method.spec_is_software() ==> calls == m.calls.push(
                BackendCall::SetSoftware { id: Ghost(id), mode: software_mode(e.method), level },
            )
            &&& e.method == Method::Unsupported ==> calls == m.calls
        },
{
}

proof fn lemma_apply_keeps_settings(m: Model, p: Pending, accepted: Seq<bool>, n: int, now: u64)
    ensures
        apply_upto(m, p, accepted, n, now).settings == m.settings,
    decreases n,
{
    if n > 0 {
        lemma_apply_keeps_settings(m, p, accepted, n - 1, now);
    }
}

/// Turning the displays off reaches them: a batch that asks for it ends by asking the backend
/// to turn the displays off in the way the settings say, naming the monitors with DDC/CI; a
/// batch that does not, does not.
pub proof fn law_turn_off_reaches_the_displays(
    m: Model,
    c: Collected,
    ds: Seq<Display>,
    accepted: Seq<bool>,
    now: u64,
)
    ensures
        ({
            let r = after_batch(m, c, ds, accepted, now);
            &&& c.turn_off ==> r.calls.last() == BackendCall::PowerOff {
                method: c.settings.power_off_method,
                ids: Ghost(ids_view(ddc_ids_upto(r.entries, r.entries.len() as int))),
            }
            &&& !c.turn_off ==> r == apply_upto(
                if c.refresh {
                    crate::worker::refresh_model(Model { settings: c.settings, ..m }, ds, now)
                } else if c.reassign {
                    crate::worker::assign_model(Model { settings: c.settings, ..m }, now)
                } else {
                    Model { settings: c.settings, ..m }
                },
                in_id_order(c.pending),
                accepted,
                in_id_order(c.pending).keys.len() as int,
                now,
            )
        }),
{
    let m1 = Model { settings: c.settings, ..m };
    let m2 = if c.refresh {
        crate::worker::refresh_model(m1, ds, now)
    } else if c.reassign {
        crate::worker::assign_model(m1, now)
    } else {
        m1
    };
    if c.refresh {
        let clears = gone_clears(m1.entries, ds);
        let pre = Model {
            entries: sort_by_place(crate::worker::carried(ds, entries_by_id(m1.entries), now)),
            calls: m1.calls + clears,
            ..m1
        };
        lemma_assign_keeps(pre, pre.entries.len() as int, now);
    } else if c.reassign {
        lemma_assign_keeps(m1, m1.entries.len() as int, now);
    }
    let p = in_id_order(c.pending);
    lemma_apply_keeps_settings(m2, p, accepted, p.keys.len() as int, now);
}

/// A batch with a shutdown in it writes to the monitors exactly what the batch cut at the
/// shutdown writes, and leaves the worker as that would: nothing after the shutdown counts.
pub proof fn law_shutdown_cuts_the_writes(
    m: Model,
    before: Seq<WorkerCmd>,
    after: Seq<WorkerCmd>,
    ds: Seq<Display>,
    accepted: Seq<bool>,
    now: u64,
)
    ensures
        after_batch(
            m,
            collect(m.settings, m.entries, before.push(WorkerCmd::Shutdown) + after),
            ds,
            accepted,
            now,
        ) == after_batch(
            m,
            collect(m.settings, m.entries, before.push(WorkerCmd::Shutdown)),
            ds,
            accepted,
            now,
        ),
{
    law_nothing_after_shutdown(m.settings, m.entries, before, after);
}

} // verus!

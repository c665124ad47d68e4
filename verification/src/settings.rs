//! The user's settings and the state kept between runs.

use vstd::prelude::*;

use crate::id_map::IdMap;
use crate::model::{MonitorId, PowerOffMethod, SoftwareDimMode};

verus! {

#[derive(Clone, Copy, Debug, PartialEq, Eq, Structural)]
pub enum ThemePreference {
    System,
    Light,
    Dark,
}

impl Default for ThemePreference {
    fn default() -> (r: Self)
        ensures
            r == ThemePreference::System,
    {
        ThemePreference::System
    }
}

/// What the user set for one monitor.
#[derive(Debug, PartialEq)]
pub struct MonitorSettings {
    /// A name of the user's own, shown in place of the monitor's
    pub name: Option<String>,
    /// The lowest level the slider reaches, in percent
    pub min: u8,
    /// The highest level the slider reaches, in percent
    pub max: u8,
    /// Left out of the panel
    pub hidden: bool,
    /// Dimmed in software even where hardware control is available
    pub force_software: bool,
}

impl MonitorSettings {
    /// What a monitor has that the user has not set anything for.
    pub open spec fn spec_default() -> MonitorSettings {
        MonitorSettings { name: None, min: 0, max: 100, hidden: false, force_software: false }
    }
}

impl MonitorSettings {
    /// Keeps the range open after the user set its ends: where the lowest level reaches the
    /// highest, the highest moves to just above it (at most 100).
    pub fn keep_range_open(&mut self)
        ensures
            *final(self) == (MonitorSettings {
                max: if old(self).min >= old(self).max {
                    if old(self).min < 100 {
                        (old(self).min + 1) as u8
                    } else {
                        100
                    }
                } else {
                    old(self).max
                },
                ..*old(self)
            }),
    {
        if self.min >= self.max {
            self.max = if self.min < 100 {
                self.min + 1
            } else {
                100
            };
        }
    }
}

impl Default for MonitorSettings {
    fn default() -> (r: Self)
        ensures
            r == MonitorSettings::spec_default(),
    {
        MonitorSettings { name: None, min: 0, max: 100, hidden: false, force_software: false }
    }
}

impl Clone for MonitorSettings {
    fn clone(&self) -> (r: Self)
        ensures
            r == *self,
    {
        MonitorSettings {
            name: match &self.name {
                Some(name) => Some(name.clone()),
                None => None,
            },
            min: self.min,
            max: self.max,
            hidden: self.hidden,
            force_software: self.force_software,
        }
    }
}

#[derive(Clone, Debug, PartialEq)]
pub struct Settings {
    pub theme: ThemePreference,
    pub start_with_os: bool,
    /// Move all monitors together
    pub link_levels: bool,
    /// Use SDR content brightness on HDR displays
    pub hdr_sdr_brightness: bool,
    /// Dim monitors without hardware control in software
    pub software_fallback: bool,
    pub software_dim_mode: SoftwareDimMode,
    pub power_off_method: PowerOffMethod,
    pub scroll_on_tray: bool,
    pub scroll_step: u8,
    pub hotkeys_enabled: bool,
    pub hotkey_up: String,
    pub hotkey_down: String,
    pub hotkey_off: String,
    pub hotkey_step: u8,
    pub monitors: IdMap<MonitorSettings>,
}

/// The settings of a first start.
pub open spec fn is_default_settings(s: Settings) -> bool {
    &&& s.theme == ThemePreference::System
    &&& s.start_with_os
    &&& !s.link_levels
    &&& s.hdr_sdr_brightness
    &&& s.software_fallback
    &&& s.software_dim_mode == SoftwareDimMode::Overlay
    &&& s.power_off_method == PowerOffMethod::System
    &&& s.scroll_on_tray
    &&& s.scroll_step == 5
    &&& s.hotkeys_enabled
    &&& s.hotkey_up@ == "Ctrl+Alt+ArrowUp"@
    &&& s.hotkey_down@ == "Ctrl+Alt+ArrowDown"@
    &&& s.hotkey_off@ == Seq::<char>::empty()
    &&& s.hotkey_step == 10
    &&& s.monitors@ == Map::<Seq<char>, MonitorSettings>::empty()
}

impl Default for Settings {
    fn default() -> (r: Self)
        ensures
            is_default_settings(r),
    {
        proof {
            reveal_strlit("Ctrl+Alt+ArrowUp");
            reveal_strlit("Ctrl+Alt+ArrowDown");
        }
        Settings {
            theme: ThemePreference::System,
            start_with_os: true,
            link_levels: false,
            hdr_sdr_brightness: true,
            software_fallback: true,
            software_dim_mode: SoftwareDimMode::Overlay,
            power_off_method: PowerOffMethod::System,
            scroll_on_tray: true,
            scroll_step: 5,
            hotkeys_enabled: true,
            hotkey_up: String::from_str("Ctrl+Alt+ArrowUp"),
            hotkey_down: String::from_str("Ctrl+Alt+ArrowDown"),
            hotkey_off: String::new(),
            hotkey_step: 10,
            monitors: IdMap::new(),
        }
    }
}

/// The settings of one monitor: what the user set, or else the defaults.
pub open spec fn spec_monitor(s: Settings, id: Seq<char>) -> MonitorSettings {
    if s.monitors@.contains_key(id) {
        s.monitors@[id]
    } else {
        MonitorSettings::spec_default()
    }
}

impl Settings {
    /// The settings that a start begins with. `stored` is what the settings file held: `None`
    /// where there is no file (or no place for one), `Some(None)` where it could not be read or
    /// parsed. Also says whether this is the first run, which is when there was no file.
    pub fn load(stored: Option<Option<Settings>>) -> (r: (Settings, bool))
        ensures
            r.1 == (stored is None),
            match stored {
                Some(Some(s)) => r.0 == s,
                _ => is_default_settings(r.0),
            },
    {
        match stored {
            None => (Settings::default(), true),
            Some(None) => (Settings::default(), false),
            Some(Some(settings)) => (settings, false),
        }
    }

    /// The settings of one monitor, the defaults where the user set nothing for it.
    pub fn monitor(&self, id: &MonitorId) -> (r: MonitorSettings)
        ensures
            r == spec_monitor(*self, id@),
    {
        match self.monitors.get(id) {
            Some(ms) => ms.clone(),
            None => MonitorSettings::default(),
        }
    }

    /// The settings of one monitor, to change in place; a monitor the user set nothing for
    /// gets the defaults first.
    pub fn monitor_mut(&mut self, id: &MonitorId) -> (r: &mut MonitorSettings)
        ensures
            *r == spec_monitor(*old(self), id@),
            final(self).monitors@ == old(self).monitors@.insert(id@, *final(r)),
            *final(self) == (Settings { monitors: final(self).monitors, ..*old(self) }),
    {
        self.monitors.value_mut(id, MonitorSettings::default())
    }

    /// Stores the settings of one monitor.
    pub fn set_monitor(&mut self, id: &MonitorId, ms: MonitorSettings)
        ensures
            final(self).monitors@ == old(self).monitors@.insert(id@, ms),
            spec_monitor(*final(self), id@) == ms,
            *final(self) == (Settings { monitors: final(self).monitors, ..*old(self) }),
    {
        self.monitors.insert(id.clone(), ms);
    }
}

/// What the app remembers between runs that the user did not set: the level each monitor was
/// dimmed to in software.
#[derive(Clone, Debug, PartialEq)]
pub struct State {
    pub software_levels: IdMap<u8>,
}

impl Default for State {
    fn default() -> (r: Self)
        ensures
            r.software_levels@ == Map::<Seq<char>, u8>::empty(),
    {
        State { software_levels: IdMap::new() }
    }
}

impl State {
    /// The state a start begins with: what the state file held, else nothing.
    pub fn load(stored: Option<State>) -> (r: State)
        ensures
            match stored {
                Some(s) => r == s,
                None => r.software_levels@ == Map::<Seq<char>, u8>::empty(),
            },
    {
        match stored {
            Some(state) => state,
            None => State::default(),
        }
    }
}

} // verus!

//! What the platform layer reports, and the platform of systems other than Windows and macOS,
//! which has no monitors to control.

use vstd::prelude::*;

use crate::backend::{Backend, BackendCall, BackendError, Display, ids_view};
use crate::model::{MonitorId, PowerOffMethod, SoftwareDimMode};

verus! {

/// What the platform tells the app.
#[derive(Clone, Copy, Debug, PartialEq, Eq)]
pub enum PlatformEvent {
    DisplaysChanged,
    ThemeChanged,
    /// A scroll over the tray icon, in Windows wheel units (120 per notch)
    TrayScroll(i32),
    /// The app was opened again while running (macOS)
    Reopen,
}

/// The backend of a platform without monitor control: it finds nothing and supports nothing,
/// but notes what it was asked.
pub struct StubBackend {
    log: Ghost<Seq<BackendCall>>,
}

impl Backend for StubBackend {
    closed spec fn calls(&self) -> Seq<BackendCall> {
        self.log@
    }

    fn enumerate(&mut self) -> (r: Vec<Display>)
        ensures
            r@.len() == 0,
    {
        Vec::new()
    }

    fn set_hardware(&mut self, id: &MonitorId, percent: u8) -> (r: Result<(), BackendError>)
        ensures
            r matches Err(BackendError::Unsupported),
    {
        proof {
            self.log@ = self.log@.push(BackendCall::SetHardware { id: Ghost(id@), percent });
        }
        Err(BackendError::Unsupported)
    }

    fn set_sdr(&mut self, id: &MonitorId, percent: u8) -> (r: Result<(), BackendError>)
        ensures
            r matches Err(BackendError::Unsupported),
    {
        proof {
            self.log@ = self.log@.push(BackendCall::SetSdr { id: Ghost(id@), percent });
        }
        Err(BackendError::Unsupported)
    }

    fn set_software(&mut self, id: &MonitorId, mode: SoftwareDimMode, level: u8) -> (r: Result<
        (),
        BackendError,
    >)
        ensures
            r matches Err(BackendError::Unsupported),
    {
        proof {
            self.log@ = self.log@.push(BackendCall::SetSoftware { id: Ghost(id@), mode, level });
        }
        Err(BackendError::Unsupported)
    }

    fn clear_software(&mut self, id: &MonitorId) {
        proof {
            self.log@ = self.log@.push(BackendCall::ClearSoftware { id: Ghost(id@) });
        }
    }

    fn clear_all_software(&mut self) {
        proof {
            self.log@ = self.log@.push(BackendCall::ClearAllSoftware);
        }
    }

    fn power_off(&mut self, method: PowerOffMethod, ddc_ids: &[MonitorId]) {
        proof {
            self.log@ = self.log@.push(
                BackendCall::PowerOff { method, ids: Ghost(ids_view(ddc_ids@)) },
            );
        }
    }
}

/// The backend of this platform, with nothing asked of it yet.
pub fn create_backend() -> (r: StubBackend)
    ensures
        r.calls() == Seq::<BackendCall>::empty(),
{
    StubBackend { log: Ghost(Seq::empty()) }
}

/// Prepares the process; nothing to do here.
pub fn init_process() {
}

/// Attaches to the console that started the app; nothing to do here.
pub fn attach_console() {
}

/// Whether the taskbar is light, which wants the dark tray icon; here it is not.
pub fn taskbar_uses_light_theme() -> (r: bool)
    ensures
        !r,
{
    false
}

/// Hides the app's window; there is none to hide here.
pub fn hide_window(raw: isize) {
}

/// Whether the app's window shows; here it never does.
pub fn is_window_visible(raw: isize) -> (r: bool)
    ensures
        !r,
{
    false
}

} // verus!

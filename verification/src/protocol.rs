//! The messages between the app and the brightness worker.

use vstd::prelude::*;

use crate::model::{MonitorId, MonitorInfo};
use crate::settings::Settings;

verus! {

/// What the app asks of the worker.
#[derive(Debug, Clone)]
pub enum WorkerCmd {
    Refresh,
    SetBrightness { id: MonitorId, value: u8 },
    SetAll(u8),
    Step(i16),
    TurnOffDisplays,
    UpdateSettings(Box<Settings>),
    Shutdown,
}

/// What the worker tells the app.
#[derive(Debug, Clone)]
pub enum WorkerEvent {
    Monitors(Vec<MonitorInfo>),
}

} // verus!

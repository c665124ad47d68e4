pub mod model;
pub mod backend;
pub mod id_map;
pub mod settings;
pub mod protocol;
pub mod text;
pub mod worker;
pub mod worker_laws;
pub mod ddc;
pub mod display_config;
pub mod autostart;
pub mod platform;
pub mod panel;
pub mod cli;
pub mod hardware;
pub mod discovery;
pub mod windows_displays;
pub mod hotkeys;
pub mod service;

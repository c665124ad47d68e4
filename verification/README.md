# Monitorium

Monitorium changes the brightness of every connected monitor from one panel: DDC/CI for
external monitors, the system's own control for built-in screens, SDR content brightness for
HDR displays, and a dark overlay or the gamma curve where nothing else works. It also reacts to
keyboard shortcuts and a small command line (`--list`, `--set <0-100>`, `--autostart`).

The library holds the decisions of all of this, including those of the tray icon (scrolling
over it, its tooltip, where the flyout opens) and of the Windows and macOS display discovery.
The program in `app/` shows the panel in a window and drives the worker with the backend for
systems without monitor control (`src/platform.rs`): it has no tray icon, and no backend that
talks to the monitors through the operating system.

The library in `src/` is verified with Verus: its functions carry `requires`/`ensures`
contracts over mathematical models, and the properties the program relies on are stated as
proof functions (`law_*`).

## Layout

- `src/model.rs`, `src/backend.rs`, `src/protocol.rs`: monitors, how each is dimmed, the
  slider-to-level mapping of a monitor's range, and the messages between panel and worker.
- `src/id_map.rs`: the map from monitor identity to a value, with distinct keys as its
  invariant.
- `src/settings.rs`: the settings and the remembered software levels.
- `src/worker.rs`, `src/worker_laws.rs`: the brightness worker — which method each monitor
  gets, how a batch of commands is applied, refreshes that keep what the user set, and every
  write it asks of the platform backend — and the properties it keeps.
- `src/panel.rs`: what the panel keeps between frames: sliders moved by hand, the tooltip,
  scrolling over the tray icon, opening and closing.
- `src/hotkeys.rs`: which shortcuts to register, the text a key combination is saved as.
- `src/cli.rs`: the command line and the `--list` lines.
- `src/ddc.rs`, `src/hardware.rs`: DDC/CI packets and checksums, the pairing of macOS's
  DDC/CI services with their framebuffers, raw values against
  percentages, retries, the overlay's darkness.
- `src/display_config.rs`, `src/windows_displays.rs`, `src/discovery.rs`: the monitor key
  shared by Windows' display configuration and WMI, SDR white levels, and how the displays
  Windows and macOS report are named, identified and matched to their physical monitors.
- `src/service.rs`: the platform service's timers (debounced refreshes, delayed power-off)
  and the wheel events it takes over the tray icon.
- `src/autostart.rs`: the login item.
- `src/platform.rs`: platform events and the backend of systems without monitor control.
- `src/text.rs`: character helpers.
- `tests/`: tests of the library on concrete values.
- `app/`: the program around the library: the window (egui), the worker's thread, the
  settings files, the login item's construction and `main`.

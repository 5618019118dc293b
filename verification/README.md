# app-monitor

A verified library for a desktop usage monitor: it records how long each
application stays in the foreground, marks idle time, closes sessions on
lock and suspend, and aggregates statistics per application.

- `src/monitor.rs` — the session engine (`Monitor`, `Session`, `AppStats`)
  with its abstract model `MonitorModel` and the per-application statistics.
- `src/laws.rs` — properties that span several operations, proved over the
  model.
- `src/linux.rs`, `src/windows.rs`, `src/power.rs` — the decisions of the
  platform backends: which backend to query and how their replies are read.
- `src/text.rs` — character-level helpers (search, trimming) and the calls
  into std's text decoders.
- `app/` — the backends themselves (X11, D-Bus, Sway IPC, Win32) and
  serialisable copies of the records; not verified.

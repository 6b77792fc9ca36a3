# legion83

Thermal, power, fan-curve and keyboard-backlight control logic for the Lenovo
LOQ Essential 15IRX11 (83SC), verified with Verus.

## Layout

- `src/` — the verified library.
  - `text` — `str` semantics: trimming, lines, `split_once`, integer parsing
    and decimal formatting, with the read-back law for written values.
  - `curve` — duty value ↔ fan speed conversion and its round-trip law.
  - `sysfs` — the sysfs snapshot the readers use, write plans and how the
    privileged helper's exit codes are read.
  - `hw` — node paths, telemetry, extras, fan-curve plans and every setter.
  - `probe` — hwmon directory resolution and the output of `nvidia-smi`,
    `intel-undervolt` and `powerprofilesctl`.
  - `screen` — panel modes and refresh-rate selection.
  - `profiles` — profiles, built-ins, load/save and binding edits.
  - `control` — curve checks, status lines, profile application order and
    the poll's decisions.
  - `kbd_idle` — the idle dimmer's timeout settings and state machine.
- `tests/` — tests on concrete values.
- `app/` — the idle dimmer daemon (`main.rs`, UPower over D-Bus and the
  Wayland idle-notify protocol) and the control window's I/O: file reads,
  helper runs, `kscreen-doctor` and `nvidia-smi`, `profiles.json`.

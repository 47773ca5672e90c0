# nevc_mtr1_gui

Desktop controller for the Nexperia NEVC-MTR1 motor driver board, which is
driven over a USB serial line with SCPI commands and whose firmware is
configured, compiled and uploaded from the application.

The logic lives in a library verified with Verus (`src/`):

- `text` — characters, whitespace trimming, splitting and joining, lines,
  and the decimal and hexadecimal number formats, with their laws.
- `scpi` — command strings, the `*IDN?` reply, the reply line protocol and
  the error queue summary.
- `serial` — how a detected port is classified and described.
- `firmware::config` — the 26 firmware parameters and their two text
  encodings (the IDN serial field and the panel inputs), each proved to read
  back what it writes.
- `firmware::patch` — applying a configuration to `config.h`, proved to
  write every parameter into its define line and to touch no other line;
  applying it twice gives what applying it once gives for any text without
  carriage returns (more exactly, whenever no patched line that a line feed
  ends is left ending with a carriage return).
- `firmware::tools`, `firmware::archive` — the decisions of the toolchain
  bootstrap: paths, the release asset to download, where archive entries
  go (cut at `/` and `\`, without empty, `.`, `..` or drive-prefixed parts,
  so no entry leaves the destination), and what a compile or upload run
  reports. ZIP archives are read by
  the `zip` crate behind a few trusted functions.
- `ui` — the panels' decisions: parameter descriptions and groups, input
  readings, the firmware version gate.
- `app` — the application state and its transition function from event to
  new state and background work, with laws about the port selection, the
  connection cycle (connected only while a port is open) and the log.

`app/` is the program around the library: the iced window, the serial line
(`serialport`), downloads (`reqwest`, `serde_json`), files and processes,
and the readings that need floating point. `tests/` runs the library on
concrete values.

# wgswitch

A thin wrapper around `wg-quick` for quick WireGuard VPN switching: list the
profiles found in the WireGuard directories, connect one (taking the others
down), take profiles down, and show the connection state with transfer totals,
rates and handshake ages, optionally with desktop notifications.

## Layout

- `src/` — the library, written in Verus. Every decision the tool takes is here,
  with a contract proved by Verus:
  - `profile` — profile-name validation, configuration paths, resolution and
    discovery of profile ids;
  - `config` — display metadata, and the ownership/permission rules a
    configuration file must pass;
  - `wg` — locating `wg`/`wg-quick`, the commands run, the kernel-interface to
    configuration map, the active configurations, the child `PATH`;
  - `status` — parsing `wg show all dump`, building the status snapshot, the
    state kept between runs, and the text rendering;
  - `human` — byte counts and ages in human units;
  - `notify` — notification texts and the commands that show them;
  - `cli` — the plans of `connect` and `off`, and the lines of `list`;
  - `text`, `sorted`, `keyed`, `choice` — string, ordering and lookup utilities.
- `app/` — the program: argument parsing, files, processes, environment, the
  clock, JSON (de)serialization and the float arithmetic of transfer rates.
- `tests/` — tests of the library.

# zbus

A telemetry scripting library for Zenoh-based monitoring: scripts (Rhai) collect readings
into samplers, put and get them on a Zenoh bus, and forward them to Zabbix.

- `src/` is the verified core (Verus):
  - `sampler` — the window of the 128 most recent readings and timestamps, generic over
    the reading type, with its positional queries (`try_get_xy`, `car`, `cdr`, selection,
    blocks for downsampling, re-stamping);
  - `zabbix` — the Zabbix sender frame (`ZBXD`, flag, little-endian length) and the reading
    of replies, including refusals;
  - `bus` — the bus configuration state, telemetry keys `.../platform/source/key`, and the
    decisions of the collect loop;
  - `text` — separator-delimited fields and regular-expression matching of text;
  - `fuzzy` — skim fuzzy scores and edit distances;
  - `records` — fixed-size records of a binary stream;
  - `system` — the privilege level the process runs with.
- `app/` is the Rhai host: engine setup, network and file I/O, and everything that
  computes with floating-point readings.
- `tests/` exercises the core on concrete values.

# mini_nube

Local storage for solar-plant telemetry: CSV files written by NCU, HSU and
TCU devices (and the NCU event log) are recognised by name, parsed into typed
rows and stored in an SQLite database.

The library under `src/` is written in Verus; every function carries a
contract that the verifier proves.

- `models` — file kinds and how they are recognised from a file name; the
  table each kind is stored in.
- `text`, `numbers`, `reader` — trimming, case folding, integer and
  float-literal syntax, and the field readers (`parse_bool`, `parse_int`,
  `parse_timestamp`, ...).
- `calendar` — the seconds since the Unix epoch that a
  `YYYY-MM-DD HH:MM:SS` date-time names.
- `table`, `records`, `events` — the semicolon-separated files: column
  lookup by header and row-by-row conversion into records; the event log,
  read line by line.
- `schema`, `ingest`, `protocol` — the SQL statements, where a file's rows
  go, how existing rows are counted in chunks of bind variables, and the
  steps of storing one file as a state machine.
- `laws` — properties of the library as a whole, proved.

The `csv` and `chrono` crates are called from the library through a few
trusted wrappers, each documented where it stands.

`app/` is the command-line tool around the library: it reads files and
folders, talks to SQLite (through `rusqlite`), turns validated float
literals into `f64`, and prints results.

# sysray

Host monitoring helpers whose decisions are proved with Verus.

`src/` is the verified library:

- `reference` — the reference catalog (stable ids, panels, aliases, tags,
  French and English texts), its scored search and the panel-highlight query.
- `log_sources` — parsers for file log lines (JSON, nginx, plain text), the
  systemd journal, the macOS unified log and the Windows event log; the
  decisions of incremental tailing (what to read, where reading stops, when a
  file was rotated) and the ordering of a pass's entries.
- `recording` — recording options, rotation buckets, segment names and the
  retention of old segments.
- `maintenance` — archive windows, retention cutoffs and which daily files a
  maintenance step takes.
- `schedule` — the recurring schedules and the text of the runner scripts,
  systemd units, launchd property lists and scheduled-task commands.
- `tui` — dashboard state (panels, operator modes, themes by name), the header
  and footer lines, the alerts panel lines and small labels.
- `calendar`, `text`, `numbers`, `sort`, `wildcard` — the arithmetic, text and
  ordering facts the rest rests on.
- `external` — the calls into serde_json, chrono and `std::path`, each behind a
  contract.

The public proof functions (`lemma_*`) state what holds across calls: for
instance that a panel is highlighted exactly when the search lists an entry of
it, that a file read to its end is not read again until it changes, that a
truncated file counts as rotated, that pruning keeps the newest segments, and
that an instant has one calendar reading.

`app/` holds the process, file-system and clock plumbing that runs those
decisions: reading journals and log files, writing recordings, pruning and
archiving files, installing schedules. `tests/` runs the library on concrete
values.

The terminal widgets, the CPU and memory sampling (floating-point
percentages) and the asynchronous runner are outside this crate, which
depends on neither `ratatui` nor `tokio`. The dashboard's decisions (which
panels show, how the monitoring area is laid out and what it draws, which
panels are highlighted, the header and footer lines) are in `tui` with their
laws.

# Sentrix

A heuristic malware triage scanner for Linux, Windows and macOS. It looks
at running processes, persistence mechanisms and recently modified files,
and reports what deserves a human look. It never modifies the system.

## Layout

- `src/` — the library, verified with Verus. It holds the report (entries,
  sections, counters, plain-text rendering, ordering by urgency), the
  comparison of two reports, the calendar behind the ISO-8601 timestamps,
  the decoding and CSV reading of Windows tool output, the path test for
  suspicious locations, the configuration overrides, and the rules of every
  platform check, each stated as a function from tool output (plain text)
  to the notes it records.
- `app/` — the command-line program: argument handling, reading `/proc`,
  files, the registry and the output of external tools, JSON and TOML, and
  the exit status.
- `tests/` — tests of the library on concrete values.

## Exit status

`0` when nothing was flagged, `2` when the scan (or, with `--diff`, the
comparison with a baseline) found something, `1` on a usage or I/O error.

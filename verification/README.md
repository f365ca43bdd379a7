# zebra_audit

Tooling for a security audit of the Zebra Zcash node, with its decision logic
verified by Verus.

- `src/` is the verified library:
  - `wire`, `digest`, `payloads`: P2P frame construction (magic, command,
    length, SHA-256d checksum), corpus seeds and crafted payloads, and the
    verdict of a serialisation round trip.
  - `crash`: classification of sanitiser reports, CVSS estimates, remediation
    advice, deduplication by content hash, report order and summaries.
  - `unsafe_scan`, `taint`, `text`: the static scanners for `unsafe` lines and
    taint sources and sinks, over exactly specified line splitting, trimming
    and substring search.
  - `klee`: command lines and scripts for KLEE and angr.
  - `peer_metrics`, `processing`, `assoc`: per-peer rate and pattern detection
    and message processing percentiles.
- `app/` holds the command-line tools, file and process I/O, async locking,
  logging, metrics emission and JSON reports around the library.
- `tests/` exercises the library on concrete values.

# Seneca

A host-side, tamper-evident evidence log for AI agents, and the bookkeeping
of microVM swarms, written in Verus.

- `src/` — the verified library.
  - `evidence.rs`: records, heads, appending (`next_record`), checking a log
    (`check_log`, specified by `verdict`), keys and reports.
  - `laws.rs`: proved properties across functions (hex round trip, appending
    keeps a log valid, a log checks out exactly when it is intact, record
    counts, truncation; an edit, a deletion or an insertion is pinpointed; a
    rewritten chain is refused at the head; unambiguous hashing; logs that
    check out against one head agree).  Where a property rests on SHA-256, it
    is stated for the records at hand: it holds where their hashes differ
    whenever the hashed bytes do.
  - `hex.rs`, `text.rs`: hexadecimal, lines, trimming, decimal text, the
    clock reading.
  - `crypto.rs`: the trusted calls into `sha2`, `ed25519_dalek`, `getrandom`.
  - `swarm.rs`: state paths, all-or-nothing start, freeze/resume state.
- `app/` — the command line: files, JSON, Firecracker processes.
- `tests/` — tests of the library on concrete values.

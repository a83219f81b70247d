# Vlk MemAct

A memory layer for agents. It keeps *what happened* (content) apart from *when it matters* (the
temporal state of a slot in a session's timeline):

- `PRESENT`: what the agent works on now, shown in full;
- `PAST`: dead ends that have been learned from, hidden;
- `FUTURE`: constraints that failures or foresight taught, shown as such.

The memory is served over JSON-RPC on standard input and output and kept in SQLite.

## Layout

- `src/`: the library, verified with Verus.
  - `text`, `casing`, `timestamps`: text as sequences of characters.
  - `compiler_errors`, `runtime_errors`, `test_failures`, `http_errors`, `fingerprint`: what near-duplicates
    of a log have in common; `recognition` says which logs share a fingerprint.
  - `slot`, `memory`, `tokens`: the timeline, its invariant, and the changes made to it.
  - `record`, `time_travel`, `loops`, `consolidation`, `conflicts`, `revocation`, `context`: the operations.
  - `keywords`, `timeline`: history, search and counts.
  - `history`, `guarantees`: what every operation keeps, and what a context shows.
  - `tools`, `protocol`, `storage`: the tools on offer, answering requests, and what the store is told;
    `conduct` says how requests behave.
- `app/`: the server around the library: standard input and output, JSON and SQLite.
- `tests/`: tests of the library.

An operation works on a `Memory` that was loaded with a session's slots, oldest first. The changes it makes
are handed over by `Memory::take_changes`, for the store to make as well.

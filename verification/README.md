# orbs

`orbs` is the data model, the persistence rules and the query layer of a durable store of work
items. An orb is a task, an epic, a bug or another piece of work; it has a content-addressed
identifier, a lifecycle, a place in a tree, dependencies on other orbs and an audit trail. The
library is written in Verus: what each function does is stated in its contract, and the contracts
are proved.

## Layout

- `src/` is the library.
  - `orb`, `task`, `review`, `id`: the work items, their lifecycles and identifiers.
  - `log`, `orb_store`, `store`: append-only logs in which the latest version of a record wins.
  - `dep`, `dep_store`, `graph`, `blocking`, `schedule`: dependency edges, cycles, what is ready,
    what waits, and the order of work.
  - `tree`: trees of orbs and critical paths.
  - `audit`, `audit_store`, `dated`: audit events and comments in chronological order.
  - `session`, `session_store`: conversation sessions, their transcripts, retention and rotation.
  - `pipeline`: isolated work areas with snapshots, compaction and recovery.
  - `trace`: gaps between groups of subtasks.
  - `commands`, `names`, `labels`, `render`: what the commands of the command line do and show.
  - `text`, `digits`, `sha256`, `paths`, `jsonl`, `time`, `uuid`, `lists`: what these rest on.
- `tests/` runs the library on concrete values.
- `app/` is the command line. It reads and writes the JSONL files and hands the library plain
  values.

Each law that relates several functions is a public proof function whose name starts with `law_`.

## What is not proved

Time, random identifiers and the text of JSON strings come from `chrono`, `uuid` and `serde_json`.
The functions that call them are marked `external_body`, and the comment above each of them says
what its contract claims. Of the standard library, the contract of `String::push` is assumed in
`text`; all others that are used come with `vstd`.

# ctx-sync-core

Shared working context for several coding agents, kept in a GitHub Gist:
project and architecture notes, append-only decision records and one file
per worker, synchronised with git.

## Layout

- `src/` — the verified library (Verus). Every public function states what
  it returns in its contract, over spec functions on character sequences.
  - `model/` — the context files: the small markdown dialect (`md.rs`),
    decisions, workers, claims, staleness, the snapshot of a context. The
    laws that reading a written file gives it back are proved in
    `md_law.rs`, `decision_law.rs` and `worker_law.rs`; that a document
    read from text renders to text that reads back the same, in
    `md_parsed.rs`.
  - `ops/` — what each command decides: claims, handoffs, new decisions,
    pruning, registration, agent start, conflict resolution.
  - `store/` — the remote's URL, the sync loop as a state machine, the
    reading of git's answers.
  - `bootstrap/` — findings about a repository from its manifests, docs,
    tree and history; `report_law.rs` relates the two renderings of a
    report.
  - `state/`, `config.rs`, `clock.rs`, `ids.rs`, `secrets.rs`, `text.rs` —
    local state paths, configuration checks, dates and times (chrono),
    UUIDs (uuid), credential detection and text helpers.
- `tests/` — tests of the library on concrete values.
- `app/` — the parts that touch files, processes and the environment:
  running `git` and `gh`, reading and writing the JSON and TOML records,
  and each command from reading to committing.

# Modou

Reactive governance for Rust workspaces. A constitution of architectural
boundaries is declared in Rust; `check` compares it with what the workspace
declares and imports, and the outcome's exit code is `0` (clean, warn-only or
fully baselined), `1` (an enforced violation) or `2` (a constitution, scan or
usage error).

The library under `src/` is written in Verus: every function carries a contract
that the verifier proves. It decides everything — which dependencies and imports
violate which boundary, what a baseline suppresses, what the reports say, which
exit code a run has. The program under `app/` performs the effects: it runs
`cargo metadata`, reads the governed crates' sources and the baseline file,
writes a baseline, and prints.

Layout of `src/`:

- `model` — the constitution, its boundaries and rules, and their builders.
- `report` — violations, their baseline identity, the outcome and its exit code.
- `workspace` — the observed workspace: metadata output and source files.
- `metadata` — packages, the dependencies each declares in each table, and a
  rule's findings.
- `strip`, `sites`, `paths`, `imports` — the `use`-declaration scanner: comments
  and literals removed, macro bodies skipped, each `use` attributed to its
  inline module, use trees expanded, paths resolved to `crate::…`.
- `reaction` — `check`, from boundaries to outcome, and workspace coverage.
- `baseline`, `order` — the recorded violations and their sorted identities.
- `projection` — the constitution as text and JSON, the outcome as JSON.
- `runner` — command-line parsing, the step after a check (answer, gate against
  a baseline, or record one), and the printed lines.
- `json`, `text` — the JSON tree read and written through `serde_json`, and
  character-level helpers.

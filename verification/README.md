# ownrs

Find out who owns what across a GitHub org: `ownrs` reconciles three
ownership signals — CODEOWNERS, Backstage `catalog-info.yaml` and GitHub
team admin permissions — and reports where they agree, disagree or have
gone stale, suggesting likely owners for orphaned repos from recent
activity.

## Layout

- `src/` — the library, verified with Verus:
  - `sources/` reading CODEOWNERS, the catalog owner, and the choice of
    CODEOWNERS file and admin teams among what GitHub returns;
  - `reconcile/` the alignment status of a repo and the tally over many;
  - `suggest/` ranking teams by their members' commits and reviews;
  - `audit.rs` the filters, suggestion triggers and exit codes of a run;
  - `config.rs`, `cli.rs` the command line and run configuration;
  - `output/` the org table (stable multi-column sort, widths, truncation),
    the repo name list and the single-repo report;
  - `cache/` cache file names and freshness;
  - `text.rs`, `timestamp.rs` text and time helpers.
- `app/` — the command-line program: argument parsing (clap), GitHub
  requests (octocrab), the cache on disk, JSON/CSV/summary output.
- `tests/` — tests of the library.

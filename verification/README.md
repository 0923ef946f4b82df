# gh-flake-detector

A command-line tool that analyzes GitHub Actions workflow runs and points at flaky
jobs: per job it counts runs and failures (failed, cancelled or timed-out jobs),
tracks failure streaks and duration figures, ranks jobs by failure rate and
summarizes them; per workflow it counts failed and skipped runs, streaks and run
durations.

Layout:

- `src/` — the library, verified with Verus:
  - `span.rs`: instants, spans of time and the duration arithmetic (chrono's);
  - `job.rs`: job records and the statistics of one job name;
  - `workflow.rs`: the statistics of a workflow;
  - `analysis.rs`: gathering both from the fetched runs;
  - `laws.rs`: what holds of every analysis (counts per job, workflow counts,
    invariants);
  - `report.rs`: ranking by failure rate and the job summary;
  - `output.rs`: choosing the report format from `--format` or the output file;
  - `fetch.rs`: the limits used when fetching, and the order in which runs are counted.
- `tests/` — tests of the library.
- `app/` — the command line: configuration (`config.toml`, `GHFD_*` variables,
  flags), GitHub requests, and writing the report as text, Markdown or JSON.

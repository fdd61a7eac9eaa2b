# cargo-health

A cargo subcommand that scans a dependency tree and reports maintenance
health: each dependency of `Cargo.lock` that comes from a registry is looked up
on crates.io and scored on update recency (50 points), downloads (30 points)
and a linked repository (20 points); 60 and more is HEALTHY, 30 to 59 WARNING,
below 30 CRITICAL. The program exits with status 1 when a dependency is
critical.

## Layout

- `src/` is the library, verified with Verus:
  - `scorer.rs`: the points for each signal, the score and its category, the
    days since the last update (through chrono), and the laws of the score.
  - `report.rs`: the text of download counts (`42`, `15.5K`, `2.5M`), the
    labels, which results a `--warn-only` report lists, the tallies of the
    summary and whether any result is critical.
  - `binary64.rs`: an exact integer model of the binary64 conversion,
    division and one-decimal rounding that the download texts go through.
  - `decimal.rs`: decimal text of integers.
  - `api.rs`: the crate metadata, the crates.io address, the status rule and
    the error texts of the client.
  - `lockfile.rs`: the package entries of a lockfile.
- `app/` is the program: command line (clap), reading and parsing the
  lockfile (toml), the requests to crates.io (ureq), and the colored report
  (colored).
- `tests/` runs the library, including comparisons of the download texts and
  the point formulas with their floating-point definitions.

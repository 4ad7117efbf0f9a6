# projector

A command-line tool that finds the git projects in a directory, scores their
health, keeps dated snapshots of each scan, and reports on them: tables,
statistics, trends, activity, orphans, shared dependencies, tags, search, and
an HTML dashboard.

## Layout

- `src/` is the library, written in Verus. Its public functions carry
  contracts that Verus proves, except the few trusted wrappers around chrono
  and std described below, whose contracts are believed:
  - `analyzer.rs`: health score, project type detection, file-type groups,
    commit counts, statistics of a scan.
  - `snapshot.rs`: snapshots, their comparison, and the snapshot files
    (naming, listing, pruning).
  - `tags.rs`: the tag index, as a map from tag to paths.
  - `config.rs`, `command.rs`: configuration keys and command-line defaults.
  - `ordering.rs`: the stable sort every ordering goes through.
  - `text.rs`, `time.rs`, `color.rs`, `display.rs`: text, dates, colours and
    output formats.
  - `export_template.rs`: the HTML pieces of the dashboard.
  - `subcmd/`: what each command decides (report filters, sorting and table,
    scan alerts, orphans, activity, trend, search, listing, dependencies,
    inspection, dashboard data).
- `app/` is the program around it: clap, serde, git2, the file system, the
  clock, and the floating-point output (averages, charts, the dashboard page).
- `tests/` runs the library on concrete values.

The few calls into chrono (date validity and formatting) and std
(`String::push`, `str::to_lowercase`) that the library makes go through
small trusted wrappers, marked `external_body`: Verus does not check them,
and their contracts, stated next to them, are taken on trust.

//! The command line: its commands and options as plain values, and the
//! defaults that fill the options left out.
use vstd::prelude::*;

use crate::config::Config;

verus! {

/// The whole command line.
pub struct Projector {
    pub command: Commands,
}

/// The commands and their options.
pub enum Commands {
    List { dir: Option<String>, tag: Option<String> },
    Scan { dir: Option<String> },
    Report { diff: bool, format: Option<String>, sort: Option<String>, filter: Vec<String> },
    Activity { days: Option<u32>, project: Option<String>, format: Option<String> },
    Deps { path: Option<String>, shared: bool, project: Option<String>, format: Option<String> },
    Orphans { days: Option<u32>, all: bool, format: Option<String> },
    Search { query: String, tag: Option<String>, format: Option<String> },
    Config { action: Option<ConfigAction> },
    Inspect { path: Option<String>, format: Option<String> },
    Stats { format: Option<String> },
    Trend { path: Option<String>, days: Option<u32>, metric: Option<String>, format: Option<String> },
    Completion { shell: ShellKind },
    Export { action: ExportAction },
    Snapshot { action: SnapshotAction },
    Tag { action: TagAction },
}

/// `config set` (the key and its new value).
pub enum ConfigAction {
    SetKey { key: String, value: String },
}

/// `export html`.
pub enum ExportAction {
    Html { output: Option<String> },
}

/// The shells completions are written for.
#[derive(Debug, Clone, Copy, PartialEq, Eq, Structural)]
pub enum ShellKind {
    Bash,
    Zsh,
    Fish,
}

/// `snapshot prune`.
pub enum SnapshotAction {
    Prune { keep: Option<u32>, dry_run: bool },
}

/// The `tag` commands.
pub enum TagAction {
    List { path: Option<String> },
    SetTag { path: String, tag: String },
    Rm { path: String, tag: String },
    Clear { path: String },
}

/// The days `activity` looks back: 7 unless given.
pub fn activity_days(days: Option<u32>) -> (d: u32)
    ensures
        d == match days {
            Some(n) => n,
            None => 7,
        },
{
    match days {
        Some(n) => n,
        None => 7,
    }
}

/// The days without a commit after which `orphans` counts a project: 90
/// unless given.
pub fn orphan_days(days: Option<u32>) -> (d: u32)
    ensures
        d == match days {
            Some(n) => n,
            None => 90,
        },
{
    match days {
        Some(n) => n,
        None => 90,
    }
}

/// The snapshots `snapshot prune` keeps: as given, else the configured
/// `snapshot.keep_count`.
pub fn keep_count(keep: Option<u32>, config: &Config) -> (k: u32)
    ensures
        k == match keep {
            Some(n) => n,
            None => config.snapshot.keep_count,
        },
{
    match keep {
        Some(n) => n,
        None => config.snapshot.keep_count,
    }
}

/// A directory option: as given, else `fallback` (`.` for `list` and
/// `inspect`, the configured `scan.default_path` for `scan`).
pub fn dir_or(dir: Option<&str>, fallback: &str) -> (r: String)
    ensures
        r@ == match dir {
            Some(d) => d@,
            None => fallback@,
        },
{
    match dir {
        Some(d) => String::from_str(d),
        None => String::from_str(fallback),
    }
}

} // verus!

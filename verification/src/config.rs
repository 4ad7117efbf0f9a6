//! The configuration (`~/.projector/config.toml`) and where the files of
//! the tool live.
use vstd::prelude::*;

use crate::text::{chars_of, owned, str_eq};

verus! {

/// Where `scan` looks by default.
pub struct ScanConfig {
    pub default_path: String,
}

/// Report settings.
pub struct ReportConfig {
    pub stale_threshold_days: u32,
}

/// Snapshot retention.
pub struct SnapshotConfig {
    pub keep_count: u32,
}

/// Health alert after a scan.
pub struct AlertConfig {
    pub health_threshold: u32,
}

/// The whole configuration.
pub struct Config {
    pub scan: ScanConfig,
    pub report: ReportConfig,
    pub snapshot: SnapshotConfig,
    pub alert: AlertConfig,
}

/// Why `Config::set` refused a setting.
#[derive(Debug)]
pub enum ConfigError {
    /// The key is not one of the configuration's keys.
    UnknownKey(String),
    /// The named setting needs a number and the value is not one.
    NotANumber(String),
}

impl ConfigError {
    /// The error message.
    pub open spec fn spec_message(&self) -> Seq<char> {
        match self {
            ConfigError::UnknownKey(k) => "Unknown config key: "@ + k@,
            ConfigError::NotANumber(f) => f@ + " must be a number"@,
        }
    }

    /// The error message.
    pub fn message(&self) -> (s: String)
        ensures
            s@ == self.spec_message(),
    {
        match self {
            ConfigError::UnknownKey(k) => {
                let s = String::from_str("Unknown config key: ");
                s.concat(k.as_str())
            },
            ConfigError::NotANumber(f) => {
                let s = f.clone();
                s.concat(" must be a number")
            },
        }
    }
}

/// A decimal digit.
pub open spec fn is_digit(c: char) -> bool {
    48 <= (c as u32) && (c as u32) <= 57
}

/// The value of a string of decimal digits.
pub open spec fn digits_value(s: Seq<char>) -> nat
    decreases s.len(),
{
    if s.len() == 0 {
        0
    } else {
        digits_value(s.drop_last()) * 10 + ((s.last() as u32) - 48) as nat
    }
}

/// The text after an optional leading `+`.
pub open spec fn number_digits(s: Seq<char>) -> Seq<char> {
    if s.len() > 0 && s[0] == '+' {
        s.drop_first()
    } else {
        s
    }
}

/// Every character is a decimal digit.
pub open spec fn all_digits(d: Seq<char>) -> bool {
    forall|i: int| 0 <= i < d.len() ==> is_digit(#[trigger] d[i])
}

/// What `str::parse::<u32>` accepts: an optional `+`, then one or more
/// decimal digits whose value fits in 32 bits.
pub open spec fn parse_u32(s: Seq<char>) -> Option<u32> {
    let d = number_digits(s);
    if d.len() > 0 && all_digits(d) && digits_value(d) <= u32::MAX {
        Some(digits_value(d) as u32)
    } else {
        None
    }
}

proof fn lemma_cap_step(x: nat, d: nat)
    requires
        d < 10,
    ensures
        (if x < 0x1_0000_0000 {
            x
        } else {
            0x1_0000_0000nat
        }) * 10 + d >= 0x1_0000_0000 <==> x * 10 + d >= 0x1_0000_0000,
        x < 0x1_0000_0000 ==> x * 10 + d < 0x1_0000_0000 * 10 + 10,
{
    if x >= 0x1_0000_0000 {
        assert(x * 10 >= 0x1_0000_0000) by (nonlinear_arith)
            requires
                x >= 0x1_0000_0000,
        ;
    } else {
        assert(x * 10 < 0x1_0000_0000 * 10) by (nonlinear_arith)
            requires
                x < 0x1_0000_0000,
        ;
    }
}

/// `s.parse::<u32>()`, with `None` for an error.
pub fn parse_number(s: &str) -> (r: Option<u32>)
    ensures
        r == parse_u32(s@),
{
    let v = chars_of(s);
    let start: usize = if v.len() > 0 && v[0] == '+' {
        1
    } else {
        0
    };
    let ghost d = number_digits(s@);
    assert(d =~= v@.subrange(start as int, v.len() as int));
    if start >= v.len() {
        return None;
    }
    // `value` is the digits' value so far, capped at 2^32.
    let mut value: u64 = 0;
    let mut i = start;
    while i < v.len()
        invariant
            v@ == s@,
            start <= i <= v.len(),
            d == v@.subrange(start as int, v.len() as int),
            d == number_digits(s@),
            forall|j: int| start <= j < i ==> is_digit(#[trigger] v@[j]),
            value == if digits_value(v@.subrange(start as int, i as int)) < 0x1_0000_0000 {
                digits_value(v@.subrange(start as int, i as int))
            } else {
                0x1_0000_0000nat
            },
        decreases v.len() - i,
    {
        let c = v[i] as u32;
        if c < 48 || c > 57 {
            assert(d[i - start] == v@[i as int]);
            assert(!is_digit(d[i - start]));
            assert(!all_digits(d));
            return None;
        }
        let ghost prev = digits_value(v@.subrange(start as int, i as int));
        assert(v@.subrange(start as int, i + 1).drop_last() =~= v@.subrange(start as int, i as int));
        proof {
            lemma_cap_step(prev, (c - 48) as nat);
        }
        let next = value * 10 + (c - 48) as u64;
        if next >= 0x1_0000_0000 {
            value = 0x1_0000_0000;
        } else {
            value = next;
        }
        i = i + 1;
    }
    assert forall|j: int| 0 <= j < d.len() implies is_digit(#[trigger] d[j]) by {
        assert(d[j] == v@[start + j]);
    }
    if value > 0xFFFF_FFFF {
        None
    } else {
        Some(value as u32)
    }
}

/// `base` joined with the relative path `rel`, as `PathBuf::join` does: a
/// separator goes between them unless `base` is empty or already ends in
/// one.
pub open spec fn path_join(base: Seq<char>, rel: Seq<char>) -> Seq<char> {
    if base.len() == 0 || base.last() == '/' {
        base + rel
    } else {
        base + seq!['/'] + rel
    }
}

/// The directory of the tool's files: `$HOME/.projector`, or `./.projector`
/// when `HOME` is not set.
pub open spec fn projector_dir_of(home: Option<Seq<char>>) -> Seq<char> {
    let base = match home {
        Some(h) => h,
        None => "."@,
    };
    path_join(base, ".projector"@)
}

/// `base` joined with `rel`.
pub fn join_path(base: &str, rel: &str) -> (r: String)
    ensures
        r@ == path_join(base@, rel@),
{
    let b = chars_of(base);
    let mut r = owned(base);
    if b.len() == 0 || b[b.len() - 1] == '/' {
        r.append(rel);
    } else {
        r.append("/");
        r.append(rel);
        proof {
            reveal_strlit("/");
        }
    }
    r
}

/// The directory of the tool's files, given the value of `HOME`.
pub fn projector_dir(home: Option<&str>) -> (r: String)
    ensures
        r@ == projector_dir_of(
            match home {
                Some(h) => Some(h@),
                None => None,
            },
        ),
{
    match home {
        Some(h) => join_path(h, ".projector"),
        None => join_path(".", ".projector"),
    }
}

/// Where snapshots are stored: `<projector dir>/snapshots`.
pub fn snapshot_dir(home: Option<&str>) -> (r: String)
    ensures
        r@ == path_join(
            projector_dir_of(
                match home {
                    Some(h) => Some(h@),
                    None => None,
                },
            ),
            "snapshots"@,
        ),
{
    let dir = projector_dir(home);
    join_path(dir.as_str(), "snapshots")
}

impl Config {
    /// Where the configuration is stored: `<projector dir>/config.toml`.
    pub fn path(home: Option<&str>) -> (r: String)
        ensures
            r@ == path_join(
                projector_dir_of(
                    match home {
                        Some(h) => Some(h@),
                        None => None,
                    },
                ),
                "config.toml"@,
            ),
    {
        let dir = projector_dir(home);
        join_path(dir.as_str(), "config.toml")
    }

    /// Sets one configuration key from its text value. The keys are
    /// `scan.default_path` (any text), and `report.stale_threshold_days`,
    /// `snapshot.keep_count`, `alert.health_threshold` (numbers, as
    /// `parse::<u32>` reads them). Nothing changes when the key is unknown or
    /// the number does not parse.
    pub fn set(&mut self, key: &str, value: &str) -> (r: Result<(), ConfigError>)
        ensures
            key@ == "scan.default_path"@ ==> r is Ok && final(self).scan.default_path@ == value@
                && final(self).report == old(self).report && final(self).snapshot == old(self).snapshot
                && final(self).alert == old(self).alert,
            key@ == "report.stale_threshold_days"@ ==> match parse_u32(value@) {
                Some(n) => r is Ok && final(self).report.stale_threshold_days == n && final(self).scan
                    == old(self).scan && final(self).snapshot == old(self).snapshot && final(self).alert
                    == old(self).alert,
                None => *final(self) == *old(self) && (r matches Err(ConfigError::NotANumber(f))
                    && f@ == "stale_threshold_days"@),
            },
            key@ == "snapshot.keep_count"@ ==> match parse_u32(value@) {
                Some(n) => r is Ok && final(self).snapshot.keep_count == n && final(self).scan
                    == old(self).scan && final(self).report == old(self).report && final(self).alert
                    == old(self).alert,
                None => *final(self) == *old(self) && (r matches Err(ConfigError::NotANumber(f))
                    && f@ == "keep_count"@),
            },
            key@ == "alert.health_threshold"@ ==> match parse_u32(value@) {
                Some(n) => r is Ok && final(self).alert.health_threshold == n && final(self).scan
                    == old(self).scan && final(self).report == old(self).report && final(self).snapshot
                    == old(self).snapshot,
                None => *final(self) == *old(self) && (r matches Err(ConfigError::NotANumber(f))
                    && f@ == "health_threshold"@),
            },
            key@ != "scan.default_path"@ && key@ != "report.stale_threshold_days"@ && key@
                != "snapshot.keep_count"@ && key@ != "alert.health_threshold"@ ==> *final(self)
                == *old(self) && (r matches Err(ConfigError::UnknownKey(k)) && k@ == key@),
    {
        proof {
            reveal_strlit("scan.default_path");
            reveal_strlit("report.stale_threshold_days");
            reveal_strlit("snapshot.keep_count");
            reveal_strlit("alert.health_threshold");
            assert("scan.default_path"@.len() == 17);
            assert("report.stale_threshold_days"@.len() == 27);
            assert("snapshot.keep_count"@.len() == 19);
            assert("alert.health_threshold"@.len() == 22);
        }
        if str_eq(key, "scan.default_path") {
            self.scan.default_path = owned(value);
            Ok(())
        } else if str_eq(key, "report.stale_threshold_days") {
            match parse_number(value) {
                Some(n) => {
                    self.report.stale_threshold_days = n;
                    Ok(())
                },
                None => Err(ConfigError::NotANumber(owned("stale_threshold_days"))),
            }
        } else if str_eq(key, "snapshot.keep_count") {
            match parse_number(value) {
                Some(n) => {
                    self.snapshot.keep_count = n;
                    Ok(())
                },
                None => Err(ConfigError::NotANumber(owned("keep_count"))),
            }
        } else if str_eq(key, "alert.health_threshold") {
            match parse_number(value) {
                Some(n) => {
                    self.alert.health_threshold = n;
                    Ok(())
                },
                None => Err(ConfigError::NotANumber(owned("health_threshold"))),
            }
        } else {
            Err(ConfigError::UnknownKey(owned(key)))
        }
    }
}

impl Default for Config {
    /// The default configuration: scan `.`, stale after 90 days, keep 30
    /// snapshots, alert below health 40.
    fn default() -> (c: Self)
        ensures
            c.scan.default_path@ == "."@,
            c.report.stale_threshold_days == 90,
            c.snapshot.keep_count == 30,
            c.alert.health_threshold == 40,
    {
        Config {
            scan: ScanConfig { default_path: owned(".") },
            report: ReportConfig { stale_threshold_days: 90 },
            snapshot: SnapshotConfig { keep_count: 30 },
            alert: AlertConfig { health_threshold: 40 },
        }
    }
}

} // verus!

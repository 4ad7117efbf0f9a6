//! Choices shared by the commands' output: the output format a command was
//! asked for, the colours of health scores and project types, and dates.
use chrono::TimeZone;
use vstd::prelude::*;

use crate::color::{blue, cyan, green, red, white, wrap, yellow};
use crate::text::{decimal, str_eq, u64_text};
use crate::time::chrono_timestamp_valid;

verus! {

/// How a command prints its result.
#[derive(Debug, Clone, Copy, PartialEq, Eq, Structural)]
pub enum OutputFormat {
    Text,
    Json,
    Markdown,
}

/// A format that the command does not offer.
#[derive(Debug)]
pub struct FormatError {
    /// The format that was asked for.
    pub given: String,
    /// Whether the command also offers `md`.
    pub markdown_offered: bool,
}

impl FormatError {
    /// The error's text.
    pub fn message(&self) -> (m: String)
        ensures
            m@ == "Unsupported format: '"@ + self.given@ + (if self.markdown_offered {
                "'. Use 'json' or 'md'."@
            } else {
                "'. Use 'json'."@
            }),
    {
        let m = String::from_str("Unsupported format: '");
        let m = m.concat(self.given.as_str());
        if self.markdown_offered {
            m.concat("'. Use 'json' or 'md'.")
        } else {
            m.concat("'. Use 'json'.")
        }
    }
}

/// The format a `--format` value names: none or an empty one is text.
pub open spec fn format_of(f: Seq<char>, markdown_offered: bool) -> Option<OutputFormat> {
    if f.len() == 0 {
        Some(OutputFormat::Text)
    } else if f == "json"@ {
        Some(OutputFormat::Json)
    } else if markdown_offered && f == "md"@ {
        Some(OutputFormat::Markdown)
    } else {
        None
    }
}

/// Reads a command's `--format` option; `md` is accepted only where
/// `markdown_offered`.
pub fn parse_format(format: Option<&str>, markdown_offered: bool) -> (r: Result<OutputFormat, FormatError>)
    ensures
        format is None ==> (r matches Ok(o) && o == OutputFormat::Text),
        format matches Some(f) ==> (match format_of(f@, markdown_offered) {
            Some(o) => r matches Ok(x) && x == o,
            None => r matches Err(e) && e.given@ == f@ && e.markdown_offered == markdown_offered,
        }),
{
    match format {
        None => Ok(OutputFormat::Text),
        Some(f) => {
            if f.unicode_len() == 0 {
                Ok(OutputFormat::Text)
            } else if str_eq(f, "json") {
                Ok(OutputFormat::Json)
            } else if markdown_offered && str_eq(f, "md") {
                Ok(OutputFormat::Markdown)
            } else {
                Err(FormatError { given: String::from_str(f), markdown_offered })
            }
        },
    }
}

/// The colour a health score is shown in: green from 80, yellow from 50,
/// red below.
pub open spec fn health_paint(h: u8) -> Seq<char> {
    if h >= 80 {
        "\x1b[32m"@
    } else if h >= 50 {
        "\x1b[33m"@
    } else {
        "\x1b[31m"@
    }
}

/// A health score as `N/100`.
pub open spec fn health_text(h: u8) -> Seq<char> {
    decimal(h as nat) + "/100"@
}

/// A health score as `N/100`.
pub fn health_text_of(h: u8) -> (r: String)
    ensures
        r@ == health_text(h),
{
    let s = u64_text(h as u64);
    s.concat("/100")
}

/// A health score as `N/100`, in its colour.
pub fn health_colored(h: u8) -> (r: String)
    ensures
        r@ == wrap(health_paint(h), health_text(h)),
{
    let t = health_text_of(h);
    if h >= 80 {
        green(t.as_str())
    } else if h >= 50 {
        yellow(t.as_str())
    } else {
        red(t.as_str())
    }
}

/// The colour a project type is shown in.
pub open spec fn type_paint(t: Seq<char>) -> Seq<char> {
    if t == "Rust"@ {
        "\x1b[32m"@
    } else if t == "JavaScript/TypeScript"@ {
        "\x1b[33m"@
    } else if t == "Go"@ {
        "\x1b[34m"@
    } else if t == "Python"@ {
        "\x1b[36m"@
    } else {
        "\x1b[37m"@
    }
}

/// A project type in its colour.
pub fn type_colored(t: &str) -> (r: String)
    ensures
        r@ == wrap(type_paint(t@), t@),
{
    if str_eq(t, "Rust") {
        green(t)
    } else if str_eq(t, "JavaScript/TypeScript") {
        yellow(t)
    } else if str_eq(t, "Go") {
        blue(t)
    } else if str_eq(t, "Python") {
        cyan(t)
    } else {
        white(t)
    }
}

/// The calendar day (`%Y-%m-%d`, UTC) of the date `secs` seconds after the
/// epoch, as chrono writes it.
pub uninterp spec fn chrono_day(secs: i64) -> Seq<char>;

/// The date and time (`%Y-%m-%d %H:%M:%S`, UTC) `secs` seconds after the
/// epoch, as chrono writes it.
pub uninterp spec fn chrono_moment(secs: i64) -> Seq<char>;

/// `Utc.timestamp_opt(secs, 0)` formatted as `%Y-%m-%d`, when chrono can
/// represent the date. The text is named `chrono_day`, a function of `secs`
/// alone; what calendar arithmetic chrono does is not restated.
#[verifier::external_body]
pub(crate) fn day_text(secs: i64) -> (r: Option<String>)
    ensures
        r is Some <==> chrono_timestamp_valid(secs),
        r matches Some(t) ==> t@ == chrono_day(secs),
{
    match chrono::Utc.timestamp_opt(secs, 0).single() {
        Some(d) => Some(d.format("%Y-%m-%d").to_string()),
        None => None,
    }
}

/// `Utc.timestamp_opt(secs, 0)` formatted as `%Y-%m-%d %H:%M:%S`, when
/// chrono can represent the date. The text is named `chrono_moment`, a
/// function of `secs` alone.
#[verifier::external_body]
pub(crate) fn moment_text(secs: i64) -> (r: Option<String>)
    ensures
        r is Some <==> chrono_timestamp_valid(secs),
        r matches Some(t) ==> t@ == chrono_moment(secs),
{
    match chrono::Utc.timestamp_opt(secs, 0).single() {
        Some(d) => Some(d.format("%Y-%m-%d %H:%M:%S").to_string()),
        None => None,
    }
}

/// The date and time `secs` seconds after the epoch written as
/// `%Y%m%d_%H%M%S` (UTC), as chrono writes it.
pub uninterp spec fn chrono_stamp(secs: i64) -> Seq<char>;

/// `Utc.timestamp_opt(secs, 0)` formatted as `%Y%m%d_%H%M%S`, when chrono
/// can represent the date. The text is named `chrono_stamp`, a function of
/// `secs` alone.
#[verifier::external_body]
pub(crate) fn stamp_text(secs: i64) -> (r: Option<String>)
    ensures
        r is Some <==> chrono_timestamp_valid(secs),
        r matches Some(t) ==> t@ == chrono_stamp(secs),
{
    match chrono::Utc.timestamp_opt(secs, 0).single() {
        Some(d) => Some(d.format("%Y%m%d_%H%M%S").to_string()),
        None => None,
    }
}

/// How a date is shown: its calendar day, or `unknown` where chrono cannot
/// represent it.
pub open spec fn day_shown(secs: i64) -> Seq<char> {
    if chrono_timestamp_valid(secs) {
        chrono_day(secs)
    } else {
        "unknown"@
    }
}

/// How a moment is shown: date and time, or `unknown` where chrono cannot
/// represent it.
pub open spec fn moment_shown(secs: i64) -> Seq<char> {
    if chrono_timestamp_valid(secs) {
        chrono_moment(secs)
    } else {
        "unknown"@
    }
}

/// The calendar day of a date (`%Y-%m-%d`).
pub fn format_day(secs: i64) -> (r: String)
    ensures
        r@ == day_shown(secs),
{
    match day_text(secs) {
        Some(t) => t,
        None => String::from_str("unknown"),
    }
}

/// The date and time of a moment (`%Y-%m-%d %H:%M:%S`).
pub fn format_moment(secs: i64) -> (r: String)
    ensures
        r@ == moment_shown(secs),
{
    match moment_text(secs) {
        Some(t) => t,
        None => String::from_str("unknown"),
    }
}

} // verus!

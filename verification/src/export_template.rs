//! Pieces of the HTML dashboard: the entries it lists, the escaping of
//! text, the rows of its rankings, type chart and project table, and the
//! page shown when there is no snapshot.
use vstd::prelude::*;

use crate::text::{chars_of, decimal, push_char, str_eq, u64_text};

verus! {

/// One row of the dashboard's project table.
#[derive(Debug)]
pub struct DashboardProject {
    pub name: String,
    pub project_type: String,
    pub branch: String,
    pub status: String,
    pub health: u8,
}

/// One bar of the type chart.
#[derive(Debug)]
pub struct TypeDistItem {
    pub name: String,
    pub count: usize,
}

/// One entry of a ranking.
#[derive(Debug)]
pub struct RankItem {
    pub name: String,
    pub health: u8,
}

/// How one character is written in HTML text.
pub open spec fn escaped_char(c: char) -> Seq<char> {
    if c == '&' {
        "&amp;"@
    } else if c == '<' {
        "&lt;"@
    } else if c == '>' {
        "&gt;"@
    } else if c == '"' {
        "&quot;"@
    } else {
        seq![c]
    }
}

/// Text made safe to put in HTML: `&`, `<`, `>` and `"` become entities.
pub open spec fn escaped(s: Seq<char>) -> Seq<char>
    decreases s.len(),
{
    if s.len() == 0 {
        Seq::empty()
    } else {
        escaped(s.drop_last()) + escaped_char(s.last())
    }
}

/// Text made safe to put in HTML.
pub fn html_escape(s: &str) -> (r: String)
    ensures
        r@ == escaped(s@),
{
    let cs = chars_of(s);
    let mut r = String::new();
    let mut i: usize = 0;
    while i < cs.len()
        invariant
            i <= cs.len(),
            cs@ == s@,
            r@ == escaped(cs@.subrange(0, i as int)),
        decreases cs.len() - i,
    {
        let ghost pre1 = cs@.subrange(0, i + 1);
        assert(pre1.drop_last() =~= cs@.subrange(0, i as int));
        let c = cs[i];
        if c == '&' {
            r = r.concat("&amp;");
        } else if c == '<' {
            r = r.concat("&lt;");
        } else if c == '>' {
            r = r.concat("&gt;");
        } else if c == '"' {
            r = r.concat("&quot;");
        } else {
            let ghost before = r@;
            push_char(&mut r, c);
            assert(r@ =~= before + seq![c]);
        }
        i = i + 1;
    }
    assert(cs@.subrange(0, cs.len() as int) =~= cs@);
    r
}

/// The badge class of a health score: good from 80, fair from 50, poor
/// below.
pub open spec fn badge_class(h: u8) -> Seq<char> {
    if h >= 80 {
        "badge-good"@
    } else if h >= 50 {
        "badge-fair"@
    } else {
        "badge-poor"@
    }
}

fn badge_of(h: u8) -> (r: &'static str)
    ensures
        r@ == badge_class(h),
{
    if h >= 80 {
        "badge-good"
    } else if h >= 50 {
        "badge-fair"
    } else {
        "badge-poor"
    }
}

/// The badge class of a status: `clean` is good, `dirty` fair, anything
/// else poor.
pub open spec fn status_class(status: Seq<char>) -> Seq<char> {
    if status == "clean"@ {
        "badge-good"@
    } else if status == "dirty"@ {
        "badge-fair"@
    } else {
        "badge-poor"@
    }
}

fn status_class_of(status: &str) -> (r: &'static str)
    ensures
        r@ == status_class(status@),
{
    if str_eq(status, "clean") {
        "badge-good"
    } else if str_eq(status, "dirty") {
        "badge-fair"
    } else {
        "badge-poor"
    }
}

/// The HTML of one ranking entry.
pub open spec fn rank_row(it: RankItem) -> Seq<char> {
    "<div class=\"rank-item\"><span>"@ + escaped(it.name@) + "</span><span class=\"badge "@ + badge_class(it.health)
        + "\">"@ + decimal(it.health as nat) + "/100</span></div>"@
}

/// The HTML of a ranking.
pub open spec fn rank_rows(items: Seq<RankItem>) -> Seq<char>
    decreases items.len(),
{
    if items.len() == 0 {
        Seq::empty()
    } else {
        rank_rows(items.drop_last()) + rank_row(items.last())
    }
}

/// The HTML of a ranking: one entry per item, with its health badge.
pub fn render_rank_items(items: &Vec<RankItem>) -> (r: String)
    ensures
        r@ == rank_rows(items@),
{
    let mut html = String::new();
    let mut i: usize = 0;
    while i < items.len()
        invariant
            i <= items.len(),
            html@ == rank_rows(items@.subrange(0, i as int)),
        decreases items.len() - i,
    {
        let ghost pre1 = items@.subrange(0, i + 1);
        assert(pre1.drop_last() =~= items@.subrange(0, i as int));
        let it = &items[i];
        let h = html.concat("<div class=\"rank-item\"><span>");
        let h = h.concat(html_escape(it.name.as_str()).as_str());
        let h = h.concat("</span><span class=\"badge ");
        let h = h.concat(badge_of(it.health));
        let h = h.concat("\">");
        let h = h.concat(u64_text(it.health as u64).as_str());
        html = h.concat("/100</span></div>");
        assert(html@ =~= rank_rows(pre1));
        i = i + 1;
    }
    assert(items@.subrange(0, items.len() as int) =~= items@);
    html
}

/// The HTML of one row of the project table.
pub open spec fn table_row_html(p: DashboardProject) -> Seq<char> {
    "<tr><td>"@ + escaped(p.name@) + "</td><td>"@ + escaped(p.project_type@) + "</td><td>"@ + escaped(p.branch@)
        + "</td><td><span class=\"badge "@ + status_class(p.status@) + "\">"@ + escaped(p.status@)
        + "</span></td><td><span class=\"badge "@ + badge_class(p.health) + "\">"@ + decimal(p.health as nat)
        + "/100</span></td></tr>"@
}

/// The HTML of the project table's rows.
pub open spec fn table_rows_html(ps: Seq<DashboardProject>) -> Seq<char>
    decreases ps.len(),
{
    if ps.len() == 0 {
        Seq::empty()
    } else {
        table_rows_html(ps.drop_last()) + table_row_html(ps.last())
    }
}

/// The rows of the project table: name, type, branch, status badge and
/// health badge of each project.
pub fn render_table_rows(projects: &Vec<DashboardProject>) -> (r: String)
    ensures
        r@ == table_rows_html(projects@),
{
    let mut rows = String::new();
    let mut i: usize = 0;
    while i < projects.len()
        invariant
            i <= projects.len(),
            rows@ == table_rows_html(projects@.subrange(0, i as int)),
        decreases projects.len() - i,
    {
        let ghost pre1 = projects@.subrange(0, i + 1);
        assert(pre1.drop_last() =~= projects@.subrange(0, i as int));
        let p = &projects[i];
        let h = rows.concat("<tr><td>");
        let h = h.concat(html_escape(p.name.as_str()).as_str());
        let h = h.concat("</td><td>");
        let h = h.concat(html_escape(p.project_type.as_str()).as_str());
        let h = h.concat("</td><td>");
        let h = h.concat(html_escape(p.branch.as_str()).as_str());
        let h = h.concat("</td><td><span class=\"badge ");
        let h = h.concat(status_class_of(p.status.as_str()));
        let h = h.concat("\">");
        let h = h.concat(html_escape(p.status.as_str()).as_str());
        let h = h.concat("</span></td><td><span class=\"badge ");
        let h = h.concat(badge_of(p.health));
        let h = h.concat("\">");
        let h = h.concat(u64_text(p.health as u64).as_str());
        rows = h.concat("/100</span></td></tr>");
        assert(rows@ =~= table_rows_html(pre1));
        i = i + 1;
    }
    assert(projects@.subrange(0, projects.len() as int) =~= projects@);
    rows
}

/// The HTML of one bar of the type chart, `pct` percent wide.
pub open spec fn type_bar(it: TypeDistItem, pct: u32) -> Seq<char> {
    "<div class=\"bar-row\"><span class=\"bar-label\">"@ + escaped(it.name@)
        + "</span><div class=\"bar-track\"><div class=\"bar-fill\" style=\"width:"@ + decimal(pct as nat)
        + "%;background:#3498db\"></div></div><span class=\"bar-count\">"@ + decimal(it.count as nat)
        + "</span></div>"@
}

/// The HTML of the type chart.
pub open spec fn type_bars(items: Seq<TypeDistItem>, pcts: Seq<u32>) -> Seq<char>
    decreases items.len(),
{
    if items.len() == 0 {
        Seq::empty()
    } else {
        type_bars(items.drop_last(), pcts) + type_bar(items.last(), pcts[items.len() - 1])
    }
}

/// The type chart: one bar per type, `pcts[i]` percent wide for item `i`
/// (its share of all projects).
pub fn render_type_chart(items: &Vec<TypeDistItem>, pcts: &Vec<u32>) -> (r: String)
    requires
        pcts.len() == items.len(),
    ensures
        r@ == type_bars(items@, pcts@),
{
    let mut html = String::new();
    let mut i: usize = 0;
    while i < items.len()
        invariant
            i <= items.len(),
            pcts.len() == items.len(),
            html@ == type_bars(items@.subrange(0, i as int), pcts@),
        decreases items.len() - i,
    {
        let ghost pre1 = items@.subrange(0, i + 1);
        assert(pre1.drop_last() =~= items@.subrange(0, i as int));
        let it = &items[i];
        let h = html.concat("<div class=\"bar-row\"><span class=\"bar-label\">");
        let h = h.concat(html_escape(it.name.as_str()).as_str());
        let h = h.concat("</span><div class=\"bar-track\"><div class=\"bar-fill\" style=\"width:");
        let h = h.concat(u64_text(pcts[i] as u64).as_str());
        let h = h.concat("%;background:#3498db\"></div></div><span class=\"bar-count\">");
        let h = h.concat(u64_text(it.count as u64).as_str());
        html = h.concat("</span></div>");
        assert(html@ =~= type_bars(pre1, pcts@));
        i = i + 1;
    }
    assert(items@.subrange(0, items.len() as int) =~= items@);
    html
}

/// The page shown when no snapshot has been taken yet.
pub open spec fn empty_page() -> Seq<char> {
    "<!DOCTYPE html>\n<html lang=\"zh-CN\">\n<head>\n<meta charset=\"UTF-8\">\n<meta name=\"viewport\" content=\"width=device-width, initial-scale=1.0\">\n<title>Projector Dashboard</title>\n<style>\n  :root { --bg: #1a1a2e; --text: #eaeaea; --muted: #888; }\n  @media (prefers-color-scheme: light) { :root { --bg: #ffffff; --text: #1a1a2e; --muted: #888; } }\n  * { margin: 0; padding: 0; box-sizing: border-box; }\n  body { font-family: -apple-system, BlinkMacSystemFont, 'Segoe UI', Roboto, sans-serif; background: var(--bg); color: var(--text); display: flex; align-items: center; justify-content: center; min-height: 100vh; }\n  .empty { text-align: center; }\n  .empty h1 { font-size: 2rem; margin-bottom: 12px; }\n  .empty p { color: var(--muted); }\n</style>\n</head>\n<body>\n<div class=\"empty\">\n  <h1>\u{1f4ca} Projector Dashboard</h1>\n  <p>No snapshot found. Run <code>projector scan</code> first.</p>\n</div>\n</body>\n</html>"@
}

/// The page shown when no snapshot has been taken yet: a title and a hint
/// to run `projector scan`.
pub fn render_empty_html() -> (r: String)
    ensures
        r@ == empty_page(),
{
    String::from_str("<!DOCTYPE html>\n<html lang=\"zh-CN\">\n<head>\n<meta charset=\"UTF-8\">\n<meta name=\"viewport\" content=\"width=device-width, initial-scale=1.0\">\n<title>Projector Dashboard</title>\n<style>\n  :root { --bg: #1a1a2e; --text: #eaeaea; --muted: #888; }\n  @media (prefers-color-scheme: light) { :root { --bg: #ffffff; --text: #1a1a2e; --muted: #888; } }\n  * { margin: 0; padding: 0; box-sizing: border-box; }\n  body { font-family: -apple-system, BlinkMacSystemFont, 'Segoe UI', Roboto, sans-serif; background: var(--bg); color: var(--text); display: flex; align-items: center; justify-content: center; min-height: 100vh; }\n  .empty { text-align: center; }\n  .empty h1 { font-size: 2rem; margin-bottom: 12px; }\n  .empty p { color: var(--muted); }\n</style>\n</head>\n<body>\n<div class=\"empty\">\n  <h1>\u{1f4ca} Projector Dashboard</h1>\n  <p>No snapshot found. Run <code>projector scan</code> first.</p>\n</div>\n</body>\n</html>")
}

} // verus!

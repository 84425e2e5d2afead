//! Reading the effort-detail table out of a FineReport page: the page's
//! table cells (with their row, column and span attributes) become one row
//! per effort record, merged cells filled in, total, note and hidden rows
//! left out. Hours stay text here; the caller reads them as numbers.

use vstd::prelude::*;
use crate::fine_report::{decode_from, decode_html_entities, html_to_plain_text, parse_u32_radix, parse_u32_spec, plain_text_spec};
use crate::text::{chars_of, contains, owned, seq_contains, seq_eq, trim, trim_seq};

verus! {

/// One effort record as the table shows it.
#[derive(Debug, Clone)]
pub struct EffortRow {
    pub date: String,
    pub department: String,
    pub employee: String,
    /// The day's total hours, as written.
    pub daily_total_raw: String,
    /// This item's hours, as written.
    pub item_hours_raw: String,
    pub project_name: String,
    pub system: String,
    pub task_name: String,
    pub work_content: String,
}

/// A table cell with what its attributes say.
#[derive(Debug, Clone)]
pub struct TdInfo {
    pub col: Option<u32>,
    pub row: Option<u32>,
    pub row_span: u32,
    pub col_span: u32,
    /// Styled `display:none`.
    pub hidden: bool,
    /// The cell's trimmed inner text is the note label `备注：`.
    pub is_note: bool,
    /// The cell's text: entities decoded, tags removed.
    pub text: String,
}

/// Attributes read in order, each later one overriding: `col` and `row`
/// (unreadable numbers count as missing), `rowSpan` and `colSpan` (1 when
/// unreadable), and `style` holding `display:none`.
pub open spec fn attrs_fold(pairs: Seq<(Seq<char>, Seq<char>)>) -> (Option<u32>, Option<u32>, u32, u32, bool)
    decreases pairs.len(),
{
    if pairs.len() == 0 {
        (None, None, 1, 1, false)
    } else {
        let (c, r, rs, cs, h) = attrs_fold(pairs.drop_last());
        let (name, val) = pairs.last();
        let num: Option<u32> = match parse_u32_spec(val, 10) {
            Some(n) => Some(n as u32),
            None => None,
        };
        if name == "col"@ {
            (num, r, rs, cs, h)
        } else if name == "row"@ {
            (c, num, rs, cs, h)
        } else if name == "rowSpan"@ {
            (c, r, match num { Some(n) => n, None => 1 }, cs, h)
        } else if name == "colSpan"@ {
            (c, r, rs, match num { Some(n) => n, None => 1 }, h)
        } else if name == "style"@ && seq_contains(val, "display:none"@) {
            (c, r, rs, cs, true)
        } else {
            (c, r, rs, cs, h)
        }
    }
}

/// What a cell holds: its attributes, whether it is the note label, and
/// its text (entities decoded, then tags removed).
pub open spec fn td_spec(attrs: Seq<(Seq<char>, Seq<char>)>, inner: Seq<char>) -> (Option<u32>, Option<u32>, u32, u32, bool, bool, Seq<char>) {
    let (c, r, rs, cs, h) = attrs_fold(attrs);
    let t = trim_seq(inner);
    (c, r, rs, cs, h, t == "备注："@, plain_text_spec(decode_from(t, 0)))
}

/// A cell as plain values.
pub open spec fn td_view(t: TdInfo) -> (Option<u32>, Option<u32>, u32, u32, bool, bool, Seq<char>) {
    (t.col, t.row, t.row_span, t.col_span, t.hidden, t.is_note, t.text@)
}

/// Attribute pairs as plain values.
pub open spec fn pairs_view(v: Seq<(String, String)>) -> Seq<(Seq<char>, Seq<char>)> {
    v.map_values(|p: (String, String)| (p.0@, p.1@))
}

/// Reads a cell from its attribute pairs and inner markup.
pub fn td_info(attrs: &Vec<(String, String)>, inner: &str) -> (r: TdInfo)
    ensures
        td_view(r) == td_spec(pairs_view(attrs@), inner@),
{
    let mut col: Option<u32> = None;
    let mut row: Option<u32> = None;
    let mut row_span: u32 = 1;
    let mut col_span: u32 = 1;
    let mut hidden = false;
    let mut i: usize = 0;
    while i < attrs.len()
        invariant
            i <= attrs.len(),
            (col, row, row_span, col_span, hidden) == attrs_fold(pairs_view(attrs@.take(i as int))),
        decreases attrs.len() - i,
    {
        let (name, val) = (&attrs[i].0, &attrs[i].1);
        assert(pairs_view(attrs@.take(i + 1)).drop_last() =~= pairs_view(attrs@.take(i as int)));
        assert(pairs_view(attrs@.take(i + 1)).last() == (name@, val@));
        let num = parse_u32_radix(&chars_of(val.as_str()), 10);
        let n = chars_of(name.as_str());
        if seq_eq(&n, &chars_of("col")) {
            col = num;
        } else if seq_eq(&n, &chars_of("row")) {
            row = num;
        } else if seq_eq(&n, &chars_of("rowSpan")) {
            row_span = match num {
                Some(x) => x,
                None => 1,
            };
        } else if seq_eq(&n, &chars_of("colSpan")) {
            col_span = match num {
                Some(x) => x,
                None => 1,
            };
        } else if seq_eq(&n, &chars_of("style")) && contains(val.as_str(), "display:none") {
            hidden = true;
        }
        i = i + 1;
    }
    assert(attrs@.take(attrs.len() as int) =~= attrs@);
    let t = trim(inner);
    let is_note = seq_eq(&chars_of(t.as_str()), &chars_of("备注："));
    let text = html_to_plain_text(decode_html_entities(t.as_str()).as_str());
    TdInfo { col, row, row_span, col_span, hidden, is_note, text }
}

/// A cell as plain values: column, row, row span, column span, hidden,
/// note label, text.
pub type TdView = (Option<u32>, Option<u32>, u32, u32, bool, bool, Seq<char>);

/// A cell with a position in the data area (row 4 and below).
pub open spec fn in_data(t: TdView) -> bool {
    t.0.is_some() && t.1.is_some() && t.1.unwrap() >= 4
}

/// A data cell that holds content.
pub open spec fn accepted(t: TdView) -> bool {
    in_data(t) && !t.5 && !t.4
}

/// Row `r` is a note or hidden row.
pub open spec fn skipped_row(tds: Seq<TdView>, r: int) -> bool {
    exists|k: int| 0 <= k < tds.len() && in_data(#[trigger] tds[k]) && tds[k].1.unwrap() == r && (tds[k].5 || tds[k].4)
}

/// The cell covers position `(r, c)` through its spans.
pub open spec fn covers(t: TdView, r: int, c: int) -> bool {
    accepted(t) && t.1.unwrap() <= r < t.1.unwrap() + t.2 && t.0.unwrap() <= c < t.0.unwrap() + t.3
}

/// The text at `(r, c)`: that of the first cell covering it, from `from`
/// on.
pub open spec fn cell_at(tds: Seq<TdView>, r: int, c: int, from: int) -> Option<Seq<char>>
    decreases tds.len() - from,
{
    if from < 0 || from >= tds.len() {
        None
    } else if covers(tds[from], r, c) {
        Some(tds[from].6)
    } else {
        cell_at(tds, r, c, from + 1)
    }
}

/// The text at `(r, c)`, empty when no cell covers it.
pub open spec fn cell_text(tds: Seq<TdView>, r: int, c: int) -> Seq<char> {
    match cell_at(tds, r, c, 0) {
        Some(t) => t,
        None => Seq::empty(),
    }
}

/// The last data row: the largest last row of a content cell (0 if none),
/// over the first `n` cells.
pub open spec fn max_row(tds: Seq<TdView>, n: int) -> int
    decreases n,
{
    if n <= 0 {
        0
    } else {
        let m = max_row(tds, n - 1);
        let t = tds[n - 1];
        if accepted(t) && t.1.unwrap() + t.2 - 1 > m {
            t.1.unwrap() + t.2 - 1
        } else {
            m
        }
    }
}

/// A record as plain values: date, department, employee, day total, item
/// hours, project, system, task, work content.
pub type RowView = (Seq<char>, Seq<char>, Seq<char>, Seq<char>, Seq<char>, Seq<char>, Seq<char>, Seq<char>, Seq<char>);

/// The record of row `r`, if it has one: not a note or hidden row, with
/// item hours, and not the total row (department `合计：`).
pub open spec fn row_record(tds: Seq<TdView>, r: int) -> Option<RowView> {
    if skipped_row(tds, r) || cell_text(tds, r, 4).len() == 0 || cell_text(tds, r, 0) == "合计："@ {
        None
    } else {
        Some((cell_text(tds, r, 2), cell_text(tds, r, 0), cell_text(tds, r, 1), cell_text(tds, r, 3), cell_text(tds, r, 4), cell_text(
            tds,
            r,
            5,
        ), cell_text(tds, r, 6), cell_text(tds, r, 7), cell_text(tds, r, 8)))
    }
}

/// The records of rows `from..=last`.
pub open spec fn records_from(tds: Seq<TdView>, from: int, last: int) -> Seq<RowView>
    decreases last + 1 - from,
{
    if from > last {
        Seq::empty()
    } else {
        let rest = records_from(tds, from + 1, last);
        match row_record(tds, from) {
            Some(x) => seq![x] + rest,
            None => rest,
        }
    }
}

/// The records of a table: rows 4 to the last data row.
pub open spec fn table_records(tds: Seq<TdView>) -> Seq<RowView> {
    records_from(tds, 4, max_row(tds, tds.len() as int))
}

/// A record as plain values.
pub open spec fn row_view(e: EffortRow) -> RowView {
    (e.date@, e.department@, e.employee@, e.daily_total_raw@, e.item_hours_raw@, e.project_name@, e.system@, e.task_name@, e.work_content@)
}

/// No content cell's rows run past the largest row number.
pub open spec fn spans_fit(tds: Seq<TdView>) -> bool {
    forall|k: int| 0 <= k < tds.len() && accepted(#[trigger] tds[k]) ==> tds[k].1.unwrap() + tds[k].2 <= u32::MAX
}

/// Cells as plain values.
pub open spec fn tds_view(v: Seq<TdInfo>) -> Seq<TdView> {
    v.map_values(|t: TdInfo| td_view(t))
}

fn covers_exec(t: &TdInfo, r: u32, c: u32) -> (b: bool)
    ensures
        b == covers(td_view(*t), r as int, c as int),
{
    match (t.col, t.row) {
        (Some(tc), Some(tr)) => {
            tr >= 4 && !t.is_note && !t.hidden && tr <= r && (r as u64) < (tr as u64) + (t.row_span as u64) && tc <= c && (c as u64) < (tc as u64) + (t.col_span as u64)
        },
        _ => false,
    }
}

fn cell_exec(tds: &Vec<TdInfo>, r: u32, c: u32) -> (s: String)
    ensures
        s@ == cell_text(tds_view(tds@), r as int, c as int),
{
    let ghost tv = tds_view(tds@);
    let mut k: usize = 0;
    while k < tds.len()
        invariant
            k <= tds.len(),
            tv == tds_view(tds@),
            cell_at(tv, r as int, c as int, 0) == cell_at(tv, r as int, c as int, k as int),
        decreases tds.len() - k,
    {
        assert(tv[k as int] == td_view(tds@[k as int]));
        if covers_exec(&tds[k], r, c) {
            return tds[k].text.clone();
        }
        k = k + 1;
    }
    String::new()
}

fn skipped_exec(tds: &Vec<TdInfo>, r: u32) -> (b: bool)
    ensures
        b == skipped_row(tds_view(tds@), r as int),
{
    let ghost tv = tds_view(tds@);
    let mut k: usize = 0;
    while k < tds.len()
        invariant
            k <= tds.len(),
            tv == tds_view(tds@),
            forall|j: int| 0 <= j < k ==> !(in_data(#[trigger] tv[j]) && tv[j].1.unwrap() == r && (tv[j].5 || tv[j].4)),
        decreases tds.len() - k,
    {
        let t = &tds[k];
        assert(tv[k as int] == td_view(*t));
        match (t.col, t.row) {
            (Some(_), Some(tr)) => {
                if tr >= 4 && tr == r && (t.is_note || t.hidden) {
                    assert(in_data(tv[k as int]));
                    return true;
                }
            },
            _ => {},
        }
        k = k + 1;
    }
    false
}

/// The effort records of a table, one per data row in row order.
pub fn rows_from_tds(tds: &Vec<TdInfo>) -> (r: Vec<EffortRow>)
    requires
        spans_fit(tds_view(tds@)),
    ensures
        r@.map_values(|e: EffortRow| row_view(e)) == table_records(tds_view(tds@)),
{
    let ghost tv = tds_view(tds@);
    let mut last: u32 = 0;
    let mut k: usize = 0;
    while k < tds.len()
        invariant
            k <= tds.len(),
            tv == tds_view(tds@),
            spans_fit(tv),
            last as int == max_row(tv, k as int),
        decreases tds.len() - k,
    {
        let t = &tds[k];
        assert(tv[k as int] == td_view(*t));
        match (t.col, t.row) {
            (Some(_), Some(tr)) => {
                if tr >= 4 && !t.is_note && !t.hidden {
                    assert(accepted(tv[k as int]));
                    if (tr as u64) + (t.row_span as u64) - 1 > last as u64 {
                        last = tr + t.row_span - 1;
                    }
                }
            },
            _ => {},
        }
        k = k + 1;
    }
    let mut out: Vec<EffortRow> = Vec::new();
    if last < 4 {
        assert(records_from(tv, 4, last as int) =~= Seq::empty());
        return out;
    }
    let mut r: u64 = 4;
    while r <= last as u64
        invariant
            4 <= r <= last as u64 + 1,
            tv == tds_view(tds@),
            out@.map_values(|e: EffortRow| row_view(e)) + records_from(tv, r as int, last as int) == records_from(tv, 4, last as int),
        decreases last as u64 + 1 - r,
    {
        let ghost before = out@.map_values(|e: EffortRow| row_view(e));
        let ru = r as u32;
        let skip = skipped_exec(tds, ru);
        let item = cell_exec(tds, ru, 4);
        let dept = cell_exec(tds, ru, 0);
        if !skip && !item.as_str().is_empty() && !seq_eq(&chars_of(dept.as_str()), &chars_of("合计：")) {
            let e = EffortRow {
                date: cell_exec(tds, ru, 2),
                department: dept,
                employee: cell_exec(tds, ru, 1),
                daily_total_raw: cell_exec(tds, ru, 3),
                item_hours_raw: item,
                project_name: cell_exec(tds, ru, 5),
                system: cell_exec(tds, ru, 6),
                task_name: cell_exec(tds, ru, 7),
                work_content: cell_exec(tds, ru, 8),
            };
            let ghost ev = row_view(e);
            out.push(e);
            assert(out@.map_values(|e: EffortRow| row_view(e)) =~= before.push(ev));
            assert(before.push(ev) + records_from(tv, r + 1, last as int) =~= before + (seq![ev] + records_from(tv, r + 1, last as int)));
        }
        r = r + 1;
    }
    assert(records_from(tv, r as int, last as int) =~= Seq::empty());
    assert(out@.map_values(|e: EffortRow| row_view(e)) + Seq::empty() =~= out@.map_values(|e: EffortRow| row_view(e)));
    out
}


/// A table cell: its attributes, then the markup inside its `<div>`.
pub open spec fn td_pattern() -> Seq<char> {
    "<td\\b([^>]*?)>\\s*<div[^>]*>([\\s\\S]*?)</div>\\s*</td>"@
}

/// One of the attributes the table reader uses, with its value.
pub open spec fn attr_pattern() -> Seq<char> {
    "(col|row|rowSpan|colSpan|style)=\"([^\"]*)\""@
}

/// What the `regex` crate finds as capture groups 1 and 2 of each
/// successive match of `pattern` in `text`.
pub uninterp spec fn regex_pair_matches(pattern: Seq<char>, text: Seq<char>) -> Seq<(Seq<char>, Seq<char>)>;

/// `Regex::new(pattern)` and `captures_iter(text)`, taking groups 1 and 2
/// of every match. Only the two table patterns are passed; each compiles and
/// both its groups take part in every match. The result is named, not
/// stated.
#[verifier::external_body]
fn regex_pairs_all(pattern: &str, text: &str) -> (r: Vec<(String, String)>)
    requires
        pattern@ == td_pattern() || pattern@ == attr_pattern(),
    ensures
        pairs_view(r@) == regex_pair_matches(pattern@, text@),
{
    let re = regex::Regex::new(pattern).unwrap();
    re.captures_iter(text).map(|c| (c[1].to_string(), c[2].to_string())).collect()
}

/// The cells of a report page, in document order.
pub open spec fn page_cells(html: Seq<char>) -> Seq<(Option<u32>, Option<u32>, u32, u32, bool, bool, Seq<char>)> {
    regex_pair_matches(td_pattern(), html).map_values(
        |p: (Seq<char>, Seq<char>)| td_spec(regex_pair_matches(attr_pattern(), p.0), p.1),
    )
}

/// Reads the cells of a report page.
pub fn page_tds(html: &str) -> (r: Vec<TdInfo>)
    ensures
        tds_view(r@) == page_cells(html@),
{
    proof {
        reveal_strlit("<td\\b([^>]*?)>\\s*<div[^>]*>([\\s\\S]*?)</div>\\s*</td>");
        reveal_strlit("(col|row|rowSpan|colSpan|style)=\"([^\"]*)\"");
    }
    let tds = regex_pairs_all("<td\\b([^>]*?)>\\s*<div[^>]*>([\\s\\S]*?)</div>\\s*</td>", html);
    let ghost m = pairs_view(tds@);
    let mut out: Vec<TdInfo> = Vec::new();
    let mut i: usize = 0;
    while i < tds.len()
        invariant
            i <= tds.len(),
            m == pairs_view(tds@),
            m == regex_pair_matches(td_pattern(), html@),
            tds_view(out@) == m.take(i as int).map_values(
                |p: (Seq<char>, Seq<char>)| td_spec(regex_pair_matches(attr_pattern(), p.0), p.1),
            ),
        decreases tds.len() - i,
    {
        let attrs = regex_pairs_all("(col|row|rowSpan|colSpan|style)=\"([^\"]*)\"", tds[i].0.as_str());
        let t = td_info(&attrs, tds[i].1.as_str());
        let ghost before = tds_view(out@);
        let ghost tview = td_view(t);
        out.push(t);
        assert(tds_view(out@) =~= before.push(tview));
        assert(m[i as int] == (tds@[i as int].0@, tds@[i as int].1@));
        assert(m.take(i + 1).map_values(
            |p: (Seq<char>, Seq<char>)| td_spec(regex_pair_matches(attr_pattern(), p.0), p.1),
        ) =~= m.take(i as int).map_values(
            |p: (Seq<char>, Seq<char>)| td_spec(regex_pair_matches(attr_pattern(), p.0), p.1),
        ).push(td_spec(regex_pair_matches(attr_pattern(), m[i as int].0), m[i as int].1)));
        assert(tds_view(out@) =~= m.take(i + 1).map_values(
            |p: (Seq<char>, Seq<char>)| td_spec(regex_pair_matches(attr_pattern(), p.0), p.1),
        ));
        i = i + 1;
    }
    assert(m.take(tds.len() as int) =~= m);
    out
}

/// The effort records of a report page. `None` when a content cell spans
/// rows past the largest row number (the row arithmetic would overflow).
pub fn parse_detail_html(html: &str) -> (r: Option<Vec<EffortRow>>)
    ensures
        match r {
            Some(rows) => spans_fit(page_cells(html@)) && rows@.map_values(|e: EffortRow| row_view(e)) == table_records(page_cells(html@)),
            None => !spans_fit(page_cells(html@)),
        },
{
    let tds = page_tds(html);
    let ghost tv = tds_view(tds@);
    let mut k: usize = 0;
    while k < tds.len()
        invariant
            k <= tds.len(),
            tv == tds_view(tds@),
            tv == page_cells(html@),
            forall|j: int| 0 <= j < k && accepted(#[trigger] tv[j]) ==> tv[j].1.unwrap() + tv[j].2 <= u32::MAX,
        decreases tds.len() - k,
    {
        let t = &tds[k];
        assert(tv[k as int] == td_view(*t));
        match (t.col, t.row) {
            (Some(_), Some(tr)) => {
                if tr >= 4 && !t.is_note && !t.hidden && (tr as u64) + (t.row_span as u64) > u32::MAX as u64 {
                    assert(accepted(tv[k as int]));
                    return None;
                }
            },
            _ => {},
        }
        k = k + 1;
    }
    Some(rows_from_tds(&tds))
}

} // verus!

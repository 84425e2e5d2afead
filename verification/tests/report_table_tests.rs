use jarvis::report_table::{parse_detail_html, rows_from_tds, td_info, EffortRow, TdInfo};

const DETAIL_HTML: &str = r#"
<table><tbody>
<tr><td col="0" row="1" colSpan="9"><div>软件部禅道工时统计明细</div></td></tr>
<tr><td col="0" row="2"><div>部门</div></td></tr>
<tr><td col="0" row="3" colSpan="3"><div>合计：</div></td><td col="3" row="3"><div>12</div></td><td col="4" row="3"><div>12</div></td></tr>
<tr>
  <td rowSpan="2" col="0" row="4"><div>开发组</div></td>
  <td rowSpan="2" col="1" row="4"><div>丁佳斌</div></td>
  <td rowSpan="2" col="2" row="4"><div>2026-05-28</div></td>
  <td rowSpan="2" col="3" row="4"><div>8</div></td>
  <td col="4" row="4"><div>4</div></td>
  <td col="5" row="4"><div>项目A</div></td>
  <td col="6" row="4"><div>系统A</div></td>
  <td col="7" row="4"><div>任务A</div></td>
  <td col="8" row="4"><div>内容A</div></td>
</tr>
<tr>
  <td col="4" row="5"><div>4</div></td>
  <td col="5" row="5"><div>项目A</div></td>
  <td col="6" row="5"><div>系统A</div></td>
  <td col="7" row="5"><div>任务B</div></td>
  <td col="8" row="5"><div>内容B</div></td>
</tr>
<tr>
  <td col="0" row="6"><div>运维组</div></td>
  <td col="1" row="6"><div>吕巧艳</div></td>
  <td col="2" row="6"><div>2026-05-28</div></td>
  <td col="3" row="6"><div>4</div></td>
  <td col="4" row="6"><div>4</div></td>
  <td col="5" row="6"><div>项目B</div></td>
  <td col="6" row="6"><div>系统B</div></td>
  <td col="7" row="6"><div>任务C</div></td>
  <td col="8" row="6"><div>跟踪进度&amp;问题</div></td>
</tr>
<tr><td col="0" row="7"><div>备注：</div></td></tr>
</tbody></table>
"#;

fn hours(s: &str) -> f32 {
    s.parse::<f32>().unwrap_or(0.0)
}

fn check_minimal(records: Vec<EffortRow>) {
    assert_eq!(records.len(), 3, "expect 3 records");

    assert_eq!(records[0].employee, "丁佳斌");
    assert_eq!(records[0].department, "开发组");
    assert_eq!(hours(&records[0].daily_total_raw), 8.0);
    assert_eq!(hours(&records[0].item_hours_raw), 4.0);
    assert_eq!(records[0].task_name, "任务A");

    assert_eq!(records[1].employee, "丁佳斌");
    assert_eq!(records[1].department, "开发组");
    assert_eq!(hours(&records[1].daily_total_raw), 8.0);
    assert_eq!(records[1].task_name, "任务B");

    assert_eq!(records[2].employee, "吕巧艳");
    assert_eq!(records[2].department, "运维组");
    assert_eq!(records[2].work_content, "跟踪进度&问题");
}

#[test]
fn fine_report_parse_detail_minimal() {
    check_minimal(parse_detail_html(DETAIL_HTML).expect("parse ok"));
}

#[test]
fn html_parser_parse_detail_minimal() {
    check_minimal(parse_detail_html(DETAIL_HTML).expect("parse ok"));
}

fn pairs(list: &[(&str, &str)]) -> Vec<(String, String)> {
    list.iter().map(|(a, b)| (a.to_string(), b.to_string())).collect()
}

#[test]
fn td_attributes_last_wins_and_defaults() {
    let t = td_info(&pairs(&[("col", "1"), ("col", "x"), ("row", "5"), ("rowSpan", "bad"), ("colSpan", "2"), ("style", "color:red")]), "  <b>a&amp;b</b> ");
    assert_eq!(t.col, None);
    assert_eq!(t.row, Some(5));
    assert_eq!(t.row_span, 1);
    assert_eq!(t.col_span, 2);
    assert!(!t.hidden);
    assert!(!t.is_note);
    assert_eq!(t.text, "a&b");
    let h = td_info(&pairs(&[("style", "display:none;")]), "备注：");
    assert!(h.hidden);
    assert!(h.is_note);
}

fn cell(col: u32, row: u32, row_span: u32, text: &str) -> TdInfo {
    TdInfo { col: Some(col), row: Some(row), row_span, col_span: 1, hidden: false, is_note: false, text: text.to_string() }
}

#[test]
fn rows_skip_totals_and_hidden_rows() {
    let mut hidden = cell(4, 6, 1, "3");
    hidden.hidden = true;
    let tds = vec![
        cell(0, 4, 1, "合计："),
        cell(4, 4, 1, "9"),
        cell(0, 5, 1, "组"),
        cell(4, 5, 1, "2"),
        hidden,
        cell(4, 7, 1, ""),
        cell(1, 8, 1, "张三"),
    ];
    let rows = rows_from_tds(&tds);
    assert_eq!(rows.len(), 1);
    assert_eq!(rows[0].department, "组");
    assert_eq!(rows[0].item_hours_raw, "2");
    assert!(parse_detail_html("<p>no table</p>").unwrap().is_empty());
    let huge = r#"<td col="4" row="4294967290" rowSpan="100"><div>1</div></td>"#;
    assert!(parse_detail_html(huge).is_none());
}

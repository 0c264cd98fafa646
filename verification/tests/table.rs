use sync_status::grouping::organize_by_dir;
use sync_status::groups::Groups;
use sync_status::render::{lay_out, pad_cell, Layout, Line};
use sync_status::report::{print_fixed_width, print_fixed_width_status, render};
use sync_status::status::{Hue, LocalStatusCode, RemoteStatusCode, StatusEntry};
use sync_status::style::Tint;
use sync_status::table::{column_widths, widen};

fn entry(cols: &[&str]) -> StatusEntry {
    StatusEntry {
        is_tracked: Some(true),
        local_status: LocalStatusCode::Current,
        remote_status: Some(RemoteStatusCode::Current),
        cols: Some(cols.iter().map(|c| c.to_string()).collect()),
    }
}

fn plain() -> Layout {
    Layout { column_spacing: 6, indent: 0, bold_keys: false, status_rows: false }
}

#[test]
fn column_is_as_wide_as_its_widest_cell_is_displayed() {
    // displayed widths 3, 7 and 5: a wide character takes two columns
    let rows = vec![entry(&["d/f", "abc"]), entry(&["d/g", "日本語x"]), entry(&["d/h", "héllo"])];
    let groups = organize_by_dir(rows);
    assert_eq!(column_widths(&groups), vec![3, 7]);
}

#[test]
fn width_is_neither_bytes_nor_characters() {
    // 2 characters, 6 bytes, 4 columns; then 2 characters, 3 bytes, 1 column
    let groups = organize_by_dir(vec![entry(&["d/f", "日本", "e\u{301}"])]);
    assert_eq!(column_widths(&groups), vec![3, 4, 1]);
}

#[test]
fn widths_are_taken_over_all_groups_and_row_lengths() {
    let rows = vec![
        entry(&["a/1", "xx"]),
        entry(&["bbbb/2"]),
        entry(&["c/3", "y", "zzzzz"]),
        entry(&["c/4", "wwww"]),
    ];
    let groups = organize_by_dir(rows);
    assert_eq!(column_widths(&groups), vec![6, 4, 5]);
    assert_eq!(column_widths(&Groups::new()), Vec::<usize>::new());
}

#[test]
fn rows_without_columns_count_for_no_width() {
    let mut absent = entry(&[]);
    absent.cols = None;
    let groups = Groups::new().insert("k".to_string(), vec![absent, entry(&[]), entry(&["ab"])]);
    assert_eq!(column_widths(&groups), vec![2]);
}

#[test]
fn plain_table_has_header_rows_and_empty_line() {
    let rows = vec![entry(&["data/a.csv", "100KB"]), entry(&["data/b.csv", "50KB"])];
    let shown = print_fixed_width(&organize_by_dir(rows), None, None, false);
    assert_eq!(shown, vec!["[data]", "data/a.csv      100KB", "data/b.csv      50KB ", ""]);
}

#[test]
fn spacing_and_indent_are_applied() {
    let rows = vec![entry(&["data/a.csv", "100KB"]), entry(&["x/b", "1"])];
    let shown = print_fixed_width(&organize_by_dir(rows), Some(2), Some(3), false);
    assert_eq!(
        shown,
        vec!["[data]", "   data/a.csv  100KB", "", "[x]", "   x/b         1    ", ""]
    );
    let rows = vec![entry(&["d/a", "b", "c"])];
    let shown = render(&organize_by_dir(rows), 0, 1, false);
    assert_eq!(shown, vec!["[d]", " d/abc", ""]);
}

#[test]
fn cells_are_filled_by_displayed_width() {
    let rows = vec![entry(&["d/日本", "x"]), entry(&["d/abcdef", "y"])];
    let shown = render(&organize_by_dir(rows), 1, 0, false);
    assert_eq!(shown, vec!["[d]", "d/日本   x", "d/abcdef y", ""]);
}

#[test]
fn short_rows_have_no_cells_for_missing_columns() {
    let rows = vec![entry(&["d/a", "bb", "ccc"]), entry(&["d/long"])];
    let shown = render(&organize_by_dir(rows), 2, 0, false);
    assert_eq!(shown, vec!["[d]", "d/a     bb  ccc", "d/long", ""]);
}

#[test]
fn row_without_columns_is_an_empty_line() {
    let mut absent = entry(&[]);
    absent.cols = None;
    let groups = Groups::new().insert("k".to_string(), vec![absent, entry(&["ab"])]);
    let shown = render(&groups, 6, 2, false);
    assert_eq!(shown, vec!["[k]", "  ", "  ab", ""]);
}

#[test]
fn empty_table_has_no_lines() {
    assert_eq!(render(&Groups::new(), 6, 0, true), Vec::<String>::new());
    assert_eq!(print_fixed_width_status(&Groups::new(), None, None, true), Vec::<String>::new());
}

#[test]
fn status_layout_leads_the_first_cell_and_tints_by_severity() {
    let mut drifted = entry(&["data/b.csv", "50KB"]);
    drifted.local_status = LocalStatusCode::Modified;
    drifted.remote_status = None;
    let rows = vec![entry(&["data/a.csv", "100KB"]), drifted];
    let layout = Layout { column_spacing: 6, indent: 0, bold_keys: true, status_rows: true };
    let lines = lay_out(&organize_by_dir(rows), &layout);
    let line = |lead: &str, body: &str, tint: Tint, tail: &str| Line {
        lead: lead.to_string(),
        body: body.to_string(),
        tint,
        tail: tail.to_string(),
    };
    assert_eq!(
        lines,
        vec![
            line("[", "data", Tint::Bold, "]"),
            line("", " data/a.csv      100KB", Tint::Colored(Hue::Green), ""),
            line("", " data/b.csv      50KB ", Tint::Colored(Hue::Red), ""),
            line("", "", Tint::Plain, ""),
        ]
    );
    assert_eq!(lines[1].compose("<styled>"), "<styled>");
    assert_eq!(lines[0].compose("DATA"), "[DATA]");
}

#[test]
fn plain_layout_has_plain_lines() {
    let lines = lay_out(&organize_by_dir(vec![entry(&["d/a"])]), &plain());
    assert!(lines.iter().all(|line| line.tint == Tint::Plain));
    assert_eq!(lines[1].show(), "d/a");
}

#[test]
fn pad_cell_fills_up_to_the_column() {
    assert_eq!(pad_cell("abc", 3, 7, false), "abc    ");
    assert_eq!(pad_cell("abc", 3, 7, true), " abc    ");
    assert_eq!(pad_cell("日本", 4, 7, false), "日本   ");
    assert_eq!(pad_cell("abc", 3, 3, false), "abc");
    assert_eq!(pad_cell("abcdef", 6, 3, true), " abcdef");
    assert_eq!(pad_cell("", 0, 2, false), "  ");
}

#[test]
fn widen_keeps_the_largest_width_of_a_column() {
    let mut widths = vec![3, 7];
    widen(&mut widths, 1, 5);
    assert_eq!(widths, vec![3, 7]);
    widen(&mut widths, 0, 4);
    assert_eq!(widths, vec![4, 7]);
    widen(&mut widths, 2, 0);
    assert_eq!(widths, vec![4, 7, 0]);
    widen(&mut widths, 5, 9);
    assert_eq!(widths, vec![4, 7, 0, 0, 0, 9]);
}

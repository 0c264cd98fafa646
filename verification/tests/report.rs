use sync_status::grouping::organize_by_dir;
use sync_status::remote::{merge_remote_names, Remote, RemoteMap};
use sync_status::report::{print_fixed_width, print_fixed_width_status, print_status, render};
use sync_status::status::{Hue, LocalStatusCode, RemoteStatusCode, StatusEntry};
use sync_status::style::{apply, Tint};

fn entry(
    cols: &[&str],
    tracking: Option<bool>,
    local: LocalStatusCode,
    remote: Option<RemoteStatusCode>,
) -> StatusEntry {
    StatusEntry {
        is_tracked: tracking,
        local_status: local,
        remote_status: remote,
        cols: Some(cols.iter().map(|c| c.to_string()).collect()),
    }
}

fn scenario() -> Vec<StatusEntry> {
    vec![
        entry(
            &["data/a.csv", "100KB"],
            Some(true),
            LocalStatusCode::Current,
            Some(RemoteStatusCode::Current),
        ),
        entry(&["data/b.csv", "50KB"], Some(true), LocalStatusCode::Modified, None),
    ]
}

#[test]
fn header_carries_the_remote_name() {
    let mut remotes = RemoteMap::new();
    remotes.insert("data".to_string(), Remote { name: "s3-bucket".to_string() });
    let groups = merge_remote_names(organize_by_dir(scenario()), Some(&remotes));
    let shown = print_fixed_width(&groups, None, None, false);
    assert_eq!(shown[0], "[data > s3-bucket]");
}

#[test]
fn header_without_matching_remote_stays() {
    let mut remotes = RemoteMap::new();
    remotes.insert("elsewhere".to_string(), Remote { name: "s3-bucket".to_string() });
    let groups = merge_remote_names(organize_by_dir(scenario()), Some(&remotes));
    let shown = print_fixed_width(&groups, None, None, false);
    assert_eq!(shown[0], "[data]");
    let groups = merge_remote_names(organize_by_dir(scenario()), None);
    assert_eq!(print_fixed_width(&groups, None, None, false)[0], "[data]");
}

#[test]
fn report_counts_the_files() {
    let shown = print_status(scenario(), None);
    assert_eq!(shown.len(), 7);
    assert_eq!(shown[1], "2 data files registered.");
    assert_eq!(shown[2], "");
    assert_eq!(shown[6], "");
    let one = print_status(vec![scenario().remove(0)], None);
    assert_eq!(one[1], "1 data file registered.");
    let none = print_status(Vec::new(), None);
    assert_eq!(none.len(), 3);
    assert_eq!(none[1], "0 data file registered.");
}

// The one test that decides whether styling is applied: the switch is
// shared by the whole process.
#[test]
fn end_to_end_with_and_without_colours() {
    colored::control::set_override(false);
    assert_eq!(apply(Tint::Bold, "data"), "data");
    assert_eq!(apply(Tint::Colored(Hue::Green), "x"), "x");
    assert_eq!(
        render(&organize_by_dir(scenario()), 6, 0, true),
        vec!["[data]", " data/a.csv      100KB", " data/b.csv      50KB ", ""]
    );
    assert_eq!(
        print_status(scenario(), None),
        vec![
            "Project data status:",
            "2 data files registered.",
            "",
            "[data]",
            " data/a.csv      100KB",
            " data/b.csv      50KB ",
            "",
        ]
    );

    colored::control::set_override(true);
    assert_eq!(apply(Tint::Plain, "data"), "data");
    assert_eq!(apply(Tint::Bold, "data"), "\u{1b}[1mdata\u{1b}[0m");
    assert_eq!(apply(Tint::Colored(Hue::Green), "x"), "\u{1b}[32mx\u{1b}[0m");
    assert_eq!(apply(Tint::Colored(Hue::Red), "x"), "\u{1b}[31mx\u{1b}[0m");
    assert_eq!(apply(Tint::Colored(Hue::Yellow), "x"), "\u{1b}[33mx\u{1b}[0m");
    assert_eq!(apply(Tint::Colored(Hue::Cyan), "x"), "\u{1b}[36mx\u{1b}[0m");
    assert_eq!(
        render(&organize_by_dir(scenario()), 6, 0, true),
        vec![
            "[\u{1b}[1mdata\u{1b}[0m]",
            "\u{1b}[32m data/a.csv      100KB\u{1b}[0m",
            "\u{1b}[31m data/b.csv      50KB \u{1b}[0m",
            "",
        ]
    );
    // the rows of a status table are coloured also where the keys are not bold
    assert_eq!(
        print_fixed_width_status(&organize_by_dir(scenario()), Some(1), Some(2), false),
        vec![
            "[data]",
            "  \u{1b}[32m data/a.csv 100KB\u{1b}[0m",
            "  \u{1b}[31m data/b.csv 50KB \u{1b}[0m",
            "",
        ]
    );
    // a plain table gets bold keys at most
    assert_eq!(
        print_fixed_width(&organize_by_dir(scenario()), None, None, true),
        vec!["[\u{1b}[1mdata\u{1b}[0m]", "data/a.csv      100KB", "data/b.csv      50KB ", ""]
    );
    let mut remotes = RemoteMap::new();
    remotes.insert("data".to_string(), Remote { name: "s3-bucket".to_string() });
    let mut rows = scenario();
    rows.push(entry(
        &["data/c.csv", "7B"],
        Some(false),
        LocalStatusCode::Current,
        Some(RemoteStatusCode::MD5Mismatch),
    ));
    rows.push(entry(&["x/d", "1"], Some(false), LocalStatusCode::Current, Some(RemoteStatusCode::Current)));
    assert_eq!(
        print_status(rows, Some(&remotes)),
        vec![
            "\u{1b}[1mProject data status:\u{1b}[0m",
            "4 data files registered.",
            "",
            "[\u{1b}[1mdata > s3-bucket\u{1b}[0m]",
            "\u{1b}[32m data/a.csv      100KB\u{1b}[0m",
            "\u{1b}[31m data/b.csv      50KB \u{1b}[0m",
            "\u{1b}[33m data/c.csv      7B   \u{1b}[0m",
            "",
            "[\u{1b}[1mx\u{1b}[0m]",
            "\u{1b}[36m x/d             1    \u{1b}[0m",
            "",
        ]
    );
    colored::control::unset_override();
}

use sync_status::grouping::{directory_key, organize_by_dir};
use sync_status::groups::Groups;
use sync_status::remote::{merge_remote_names, Remote, RemoteMap};
use sync_status::status::{LocalStatusCode, RemoteStatusCode, StatusEntry};

fn entry(cols: &[&str]) -> StatusEntry {
    StatusEntry {
        is_tracked: Some(true),
        local_status: LocalStatusCode::Current,
        remote_status: Some(RemoteStatusCode::Current),
        cols: Some(cols.iter().map(|c| c.to_string()).collect()),
    }
}

fn keys(groups: &Groups) -> Vec<String> {
    let mut keys = Vec::new();
    let mut i = 0;
    while let Some(group) = groups.get(i) {
        keys.push(group.key.clone());
        i += 1;
    }
    assert_eq!(i, groups.len());
    keys
}

#[test]
fn two_segment_path_is_grouped_under_its_directory() {
    let rows = vec![entry(&["dir/file", "1KB"])];
    let groups = organize_by_dir(rows.clone());
    assert_eq!(groups.len(), 1);
    let group = groups.get(0).unwrap();
    assert_eq!(group.key, "dir");
    assert_eq!(group.entries, rows);
    assert!(groups.get(1).is_none());
}

#[test]
fn entry_without_separator_is_in_no_group() {
    let rows = vec![entry(&["file.txt"]), entry(&["dir/file"]), entry(&["README"])];
    let groups = organize_by_dir(rows.clone());
    assert_eq!(keys(&groups), vec!["dir"]);
    assert_eq!(groups.get(0).unwrap().entries, vec![rows[1].clone()]);
    assert_eq!(directory_key(&rows[0]), None);
    assert_eq!(directory_key(&rows[1]), Some("dir".to_string()));
}

#[test]
fn entry_without_columns_is_in_no_group() {
    let mut bare = entry(&[]);
    let mut absent = entry(&["x/y"]);
    absent.cols = None;
    bare.is_tracked = None;
    let groups = organize_by_dir(vec![bare, absent]);
    assert_eq!(groups.len(), 0);
}

#[test]
fn groups_come_in_key_order_and_rows_in_their_own() {
    let rows = vec![
        entry(&["z/1"]),
        entry(&["data/b.csv"]),
        entry(&["a/x"]),
        entry(&["data/a.csv"]),
        entry(&["data/raw/c.csv"]),
        entry(&["z/0"]),
    ];
    let groups = organize_by_dir(rows.clone());
    assert_eq!(keys(&groups), vec!["a", "data", "data/raw", "z"]);
    assert_eq!(groups.get(0).unwrap().entries, vec![rows[2].clone()]);
    assert_eq!(groups.get(1).unwrap().entries, vec![rows[1].clone(), rows[3].clone()]);
    assert_eq!(groups.get(2).unwrap().entries, vec![rows[4].clone()]);
    assert_eq!(groups.get(3).unwrap().entries, vec![rows[0].clone(), rows[5].clone()]);
}

#[test]
fn insert_replaces_what_stood_under_the_key() {
    let groups = Groups::new();
    let groups = groups.insert("b".to_string(), vec![entry(&["b/1"])]);
    let groups = groups.insert("a".to_string(), vec![entry(&["a/1"])]);
    let groups = groups.insert("b".to_string(), vec![entry(&["b/2"]), entry(&["b/3"])]);
    assert_eq!(keys(&groups), vec!["a", "b"]);
    assert_eq!(groups.get(1).unwrap().entries, vec![entry(&["b/2"]), entry(&["b/3"])]);
}

#[test]
fn push_entry_adds_behind_the_entries_of_the_key() {
    let groups = Groups::new();
    let groups = groups.push_entry("m".to_string(), entry(&["m/1"]));
    let groups = groups.push_entry("c".to_string(), entry(&["c/1"]));
    let groups = groups.push_entry("m".to_string(), entry(&["m/2"]));
    let groups = groups.push_entry("x".to_string(), entry(&["x/1"]));
    assert_eq!(keys(&groups), vec!["c", "m", "x"]);
    assert_eq!(groups.get(1).unwrap().entries, vec![entry(&["m/1"]), entry(&["m/2"])]);
    let list = groups.into_list();
    assert_eq!(list.len(), 3);
    assert_eq!(list[2].key, "x");
}

#[test]
fn remote_map_keeps_the_last_remote_of_a_directory() {
    let mut remotes = RemoteMap::new();
    assert!(remotes.get("data").is_none());
    remotes.insert("data".to_string(), Remote { name: "first".to_string() });
    remotes.insert("other".to_string(), Remote { name: "elsewhere".to_string() });
    remotes.insert("data".to_string(), Remote { name: "s3-bucket".to_string() });
    assert_eq!(remotes.get("data").unwrap().name(), "s3-bucket");
    assert_eq!(remotes.get("other").unwrap().name(), "elsewhere");
    assert!(remotes.get("dat").is_none());
}

#[test]
fn remote_name_is_merged_into_the_key() {
    let mut remotes = RemoteMap::new();
    remotes.insert("data".to_string(), Remote { name: "s3-bucket".to_string() });
    let rows = vec![entry(&["data/a.csv"]), entry(&["other/b.csv"])];
    let merged = merge_remote_names(organize_by_dir(rows.clone()), Some(&remotes));
    assert_eq!(keys(&merged), vec!["data > s3-bucket", "other"]);
    assert_eq!(merged.get(0).unwrap().entries, vec![rows[0].clone()]);
    assert_eq!(merged.get(1).unwrap().entries, vec![rows[1].clone()]);
}

#[test]
fn without_remotes_the_keys_stay() {
    let rows = vec![entry(&["data/a.csv"]), entry(&["other/b.csv"])];
    let merged = merge_remote_names(organize_by_dir(rows.clone()), None);
    assert_eq!(keys(&merged), vec!["data", "other"]);
    let empty = RemoteMap::new();
    let merged = merge_remote_names(organize_by_dir(rows), Some(&empty));
    assert_eq!(keys(&merged), vec!["data", "other"]);
}

#[test]
fn merged_keys_are_sorted_again_and_the_last_one_wins() {
    let mut remotes = RemoteMap::new();
    remotes.insert("a".to_string(), Remote { name: "zeta".to_string() });
    remotes.insert("a > zeta".to_string(), Remote { name: "x".to_string() });
    remotes.insert("b".to_string(), Remote { name: "r".to_string() });
    let groups = Groups::new()
        .insert("a".to_string(), vec![entry(&["a/1"])])
        .insert("a > zeta > x".to_string(), vec![entry(&["old"])])
        .insert("a > zeta".to_string(), vec![entry(&["new"])])
        .insert("a!".to_string(), vec![entry(&["a!/1"])])
        .insert("b".to_string(), vec![entry(&["b/1"])]);
    assert_eq!(keys(&groups), vec!["a", "a > zeta", "a > zeta > x", "a!", "b"]);
    let merged = merge_remote_names(groups, Some(&remotes));
    assert_eq!(keys(&merged), vec!["a > zeta", "a > zeta > x", "a!", "b > r"]);
    assert_eq!(merged.get(0).unwrap().entries, vec![entry(&["a/1"])]);
    assert_eq!(merged.get(1).unwrap().entries, vec![entry(&["old"])]);
}

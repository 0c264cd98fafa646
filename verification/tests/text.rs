use sync_status::text::{chars_of, decimal, parent_directory, same_text, spaces, stands_before};

#[test]
fn chars_of_gives_the_characters() {
    assert_eq!(chars_of("a/é日"), vec!['a', '/', 'é', '日']);
    assert_eq!(chars_of(""), Vec::<char>::new());
}

#[test]
fn spaces_gives_a_run_of_spaces() {
    assert_eq!(spaces(0), "");
    assert_eq!(spaces(6), "      ");
}

#[test]
fn directory_of_two_segments() {
    assert_eq!(parent_directory("dir/file"), Some("dir".to_string()));
    assert_eq!(parent_directory("data/a.csv"), Some("data".to_string()));
}

#[test]
fn directory_of_nested_path_is_all_before_the_last_separator() {
    assert_eq!(parent_directory("data/raw/a.csv"), Some("data/raw".to_string()));
    assert_eq!(parent_directory("données/été.csv"), Some("données".to_string()));
}

#[test]
fn bare_name_has_no_directory() {
    assert_eq!(parent_directory("file.txt"), None);
    assert_eq!(parent_directory(""), None);
}

#[test]
fn separator_at_the_start_gives_an_empty_directory() {
    assert_eq!(parent_directory("/file"), Some(String::new()));
}

#[test]
fn key_order_is_the_order_of_strings() {
    let words = ["", "a", "ab", "b", "B", "data", "data > s3", "data/raw", "été", "z", "日本", "~"];
    for x in words {
        for y in words {
            assert_eq!(stands_before(x, y), x < y, "{:?} before {:?}", x, y);
        }
    }
}

#[test]
fn same_text_compares_the_characters() {
    assert!(same_text("data", "data"));
    assert!(same_text("", ""));
    assert!(!same_text("data", "date"));
    assert!(!same_text("data", "data "));
}

#[test]
fn decimal_writes_numbers() {
    assert_eq!(decimal(0), "0");
    assert_eq!(decimal(7), "7");
    assert_eq!(decimal(10), "10");
    assert_eq!(decimal(1234567890), "1234567890");
    assert_eq!(decimal(usize::MAX), usize::MAX.to_string());
}

use folder_search::platform::{
    base_name, get_drive_info, get_system_drive, is_hidden, normalize_path, DriveInfo,
};
use folder_search::scan::{
    is_binary_file, is_too_large, search_file, should_prioritize_directory, should_skip_file,
};
use folder_search::pattern::build_regex;
use folder_search::types::SearchStats;
use folder_search::watch::WatchTarget;

#[test]
fn normalize_path_replaces_backslashes() {
    assert_eq!(normalize_path("C:\\Users\\me\\notes.txt"), "C:/Users/me/notes.txt");
    assert_eq!(normalize_path("/already/normal"), "/already/normal");
    assert_eq!(normalize_path(""), "");
}

#[test]
fn base_name_takes_the_final_component() {
    assert_eq!(base_name("/a/b/c.txt"), "c.txt");
    assert_eq!(base_name("plain"), "plain");
    // Trailing separators do not hide the final component.
    assert_eq!(base_name("/a/b/"), "b");
    assert_eq!(base_name("/a/b///"), "b");
    assert_eq!(base_name("/"), "");
    assert_eq!(base_name("///"), "");
    assert_eq!(base_name(""), "");
}

#[test]
fn hidden_entries_start_with_a_dot() {
    assert!(is_hidden(".git"));
    assert!(is_hidden("/home/me/.config"));
    assert!(is_hidden("/home/me/.config/"));
    assert!(!is_hidden("/home/me/visible"));
    assert!(!is_hidden("/trailing/"));
    assert!(!is_hidden("/"));
    assert!(!is_hidden(""));
}

#[test]
fn system_drive_is_the_root() {
    assert_eq!(get_system_drive(), "/");
}

#[test]
fn drive_info_reports_the_single_root() {
    let (system, mount, drives) = get_drive_info().unwrap();
    assert_eq!(system, "/");
    assert_eq!(mount, "/");
    assert_eq!(drives, vec!["/".to_string()]);

    let info = DriveInfo {
        system_drive: system,
        user_home: "/home/me".to_string(),
        available_drives: drives,
    };
    assert_eq!(info.available_drives.len(), 1);
}

#[test]
fn priority_directories_match_the_allowlist() {
    assert!(should_prioritize_directory("/x/src"));
    assert!(should_prioritize_directory("/x/lib"));
    assert!(should_prioritize_directory("app"));
    assert!(should_prioritize_directory("/deep/components"));
    assert!(should_prioritize_directory("/deep/pages"));
    // A trailing separator does not hide the directory's name.
    assert!(should_prioritize_directory("/x/src/"));
    assert!(!should_prioritize_directory("/x/source"));
    assert!(!should_prioritize_directory("/x/srcs"));
    assert!(!should_prioritize_directory("/x/SRC"));
}

#[test]
fn binary_detection_finds_null_bytes() {
    assert!(!is_binary_file(&vec![]));
    assert!(!is_binary_file(&vec![1, 2, 3]));
    assert!(is_binary_file(&vec![1, 0, 3]));
    assert!(is_binary_file(&vec![0]));
}

#[test]
fn size_ceiling_is_ten_megabytes() {
    assert!(!is_too_large(0));
    assert!(!is_too_large(10 * 1024 * 1024));
    assert!(is_too_large(10 * 1024 * 1024 + 1));
}

#[test]
fn skip_decision_combines_the_probes() {
    assert!(should_skip_file(&Some(10 * 1024 * 1024 + 1), &Some(vec![1, 2])));
    assert!(should_skip_file(&Some(10), &Some(vec![0])));
    assert!(!should_skip_file(&Some(10), &Some(vec![1, 2])));
    // A failed probe never causes a skip.
    assert!(!should_skip_file(&None, &None));
    assert!(!should_skip_file(&None, &Some(vec![1])));
    assert!(!should_skip_file(&Some(10), &None));
}

#[test]
fn scanner_strips_carriage_returns_and_final_newline() {
    let matcher = build_regex("foo", false, true, false).unwrap();

    let crlf = search_file("a.txt", "foo\r\nbar\r\nfoo", &matcher).unwrap();
    assert_eq!(crlf.matches.len(), 2);
    assert_eq!(crlf.matches[0].line, 1);
    assert_eq!(crlf.matches[0].content, "foo");
    assert_eq!(crlf.matches[1].line, 3);

    let trailing = search_file("b.txt", "foo\n", &matcher).unwrap();
    assert_eq!(trailing.matches.len(), 1);
    assert_eq!(trailing.matches[0].line, 1);
}

#[test]
fn scanner_normalizes_the_reported_path() {
    let matcher = build_regex("foo", false, true, false).unwrap();
    let result = search_file("dir\\sub\\a.txt", "foo", &matcher).unwrap();
    assert_eq!(result.path, "dir/sub/a.txt");
}

#[test]
fn watch_targets_are_distinct() {
    let asked = WatchTarget::FileCreation;
    assert_eq!(asked, WatchTarget::FileCreation);
    assert_ne!(asked, WatchTarget::All);
    assert!(matches!(WatchTarget::FolderRename, WatchTarget::FolderRename));
}

#[test]
fn stats_start_at_zero() {
    let stats = SearchStats::default();
    assert_eq!(stats.files_searched, 0);
    assert_eq!(stats.total_matches, 0);
    assert_eq!(stats.directories_searched, 0);
}

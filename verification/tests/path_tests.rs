use rsync_tui::path::{find_common_prefix, plan_completion, resolve_completion, CompletionPlan, DirEntry};

#[test]
fn test_find_common_prefix() {
    let strings = vec![
        "hello_world".to_string(),
        "hello_there".to_string(),
        "hello_rust".to_string(),
    ];
    assert_eq!(find_common_prefix(&strings), "hello_");
}

#[test]
fn test_find_common_prefix_single() {
    let strings = vec!["hello".to_string()];
    assert_eq!(find_common_prefix(&strings), "hello");
}

#[test]
fn test_find_common_prefix_empty() {
    let strings: Vec<String> = vec![];
    assert_eq!(find_common_prefix(&strings), "");
}

#[test]
fn test_find_common_prefix_order_independent() {
    let forward = vec![
        "hello_world".to_string(),
        "hello_there".to_string(),
        "hello_rust".to_string(),
    ];
    let backward = vec![
        "hello_rust".to_string(),
        "hello_there".to_string(),
        "hello_world".to_string(),
    ];
    assert_eq!(find_common_prefix(&forward), find_common_prefix(&backward));
}

#[test]
fn test_plan_empty_input() {
    match plan_completion("", false) {
        CompletionPlan::Settled(o) => assert!(o.is_none()),
        CompletionPlan::NeedListing { .. } => panic!("empty input must settle"),
    }
}

#[test]
fn test_plan_directory_with_separator() {
    match plan_completion("/tmp/", true) {
        CompletionPlan::Settled(o) => assert!(o.is_none()),
        CompletionPlan::NeedListing { .. } => panic!("complete directory must settle"),
    }
}

#[test]
fn test_plan_directory_without_separator() {
    match plan_completion("/tmp", true) {
        CompletionPlan::Settled(o) => assert_eq!(o.unwrap(), "/tmp/"),
        CompletionPlan::NeedListing { .. } => panic!("directory must settle to its slash form"),
    }
}

#[test]
fn test_plan_bare_relative_prefix() {
    match plan_completion("sr", false) {
        CompletionPlan::NeedListing { parent, prefix } => {
            assert_eq!(parent, ".");
            assert_eq!(prefix, "sr");
        }
        CompletionPlan::Settled(_) => panic!("a bare prefix needs a listing"),
    }
}

#[test]
fn test_plan_trailing_separator_without_directory() {
    // "xy/" where xy is no existing directory: the separator is ignored
    // and the component before it is the prefix to match
    match plan_completion("xy/", false) {
        CompletionPlan::NeedListing { parent, prefix } => {
            assert_eq!(parent, ".");
            assert_eq!(prefix, "xy");
        }
        CompletionPlan::Settled(_) => panic!("a missing directory needs a listing"),
    }
}

#[test]
fn test_plan_top_level_prefix() {
    match plan_completion("/ab", false) {
        CompletionPlan::NeedListing { parent, prefix } => {
            assert_eq!(parent, "/");
            assert_eq!(prefix, "ab");
        }
        CompletionPlan::Settled(_) => panic!("a top-level prefix needs a listing"),
    }
}

#[test]
fn test_plan_nested_prefix() {
    match plan_completion("a/b/cd", false) {
        CompletionPlan::NeedListing { parent, prefix } => {
            assert_eq!(parent, "a/b");
            assert_eq!(prefix, "cd");
        }
        CompletionPlan::Settled(_) => panic!("a nested prefix needs a listing"),
    }
}

#[test]
fn test_resolve_failed_listing() {
    let r = resolve_completion("/x/he", "/x", "he", None);
    assert!(r.is_none());
}

#[test]
fn test_resolve_no_match() {
    let entries = vec![DirEntry { name: "other".to_string(), is_dir: false }];
    let r = resolve_completion("/x/he", "/x", "he", Some(&entries));
    assert!(r.is_none());
}

#[test]
fn test_resolve_single_file_match() {
    let entries = vec![
        DirEntry { name: "hello.txt".to_string(), is_dir: false },
        DirEntry { name: "other".to_string(), is_dir: false },
    ];
    let r = resolve_completion("/x/he", "/x", "he", Some(&entries));
    assert_eq!(r.unwrap(), "/x/hello.txt");
}

#[test]
fn test_resolve_single_directory_match_gets_separator() {
    let entries = vec![DirEntry { name: "hello".to_string(), is_dir: true }];
    let r = resolve_completion("/x/he", "/x", "he", Some(&entries));
    assert_eq!(r.unwrap(), "/x/hello/");
}

#[test]
fn test_resolve_multiple_matches_extend_input() {
    let entries = vec![
        DirEntry { name: "hello_world".to_string(), is_dir: false },
        DirEntry { name: "hello_there".to_string(), is_dir: true },
    ];
    let r = resolve_completion("/x/he", "/x", "he", Some(&entries));
    assert_eq!(r.unwrap(), "/x/hello_");
}

#[test]
fn test_resolve_multiple_matches_without_progress() {
    let entries = vec![
        DirEntry { name: "hello_world".to_string(), is_dir: false },
        DirEntry { name: "hello_there".to_string(), is_dir: true },
    ];
    let r = resolve_completion("/x/hello_", "/x", "hello_", Some(&entries));
    assert!(r.is_none());
}

#[test]
fn test_resolve_parent_with_trailing_separator() {
    let entries = vec![DirEntry { name: "abc".to_string(), is_dir: false }];
    let r = resolve_completion("/ab", "/", "ab", Some(&entries));
    assert_eq!(r.unwrap(), "/abc");
}

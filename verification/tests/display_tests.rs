use rsync_tui::display::{format_option, wrap_command};

#[test]
fn test_format_option_enabled() {
    assert_eq!(format_option("a", "Archive", true), "[x]a Archive");
}

#[test]
fn test_format_option_disabled() {
    assert_eq!(format_option("z", "Compress", false), "[ ]z Compress");
}

#[test]
fn test_wrap_short_command_kept_whole() {
    let lines = wrap_command("rsync -a /src /dest", 80);
    assert_eq!(lines, vec!["rsync -a /src /dest"]);
}

#[test]
fn test_wrap_trims_leading_whitespace() {
    let lines = wrap_command("   rsync -a", 80);
    assert_eq!(lines, vec!["rsync -a"]);
}

#[test]
fn test_wrap_splits_at_newlines() {
    let lines = wrap_command("ab\ncd", 80);
    assert_eq!(lines, vec!["ab", "cd"]);
}

#[test]
fn test_wrap_long_command_breaks_at_spaces() {
    let cmd = "rsync -a --progress /averylongpath /anotherlongpath";
    let lines = wrap_command(cmd, 20);
    assert_eq!(
        lines,
        vec![
            "rsync -a \\",
            "  --progress \\",
            "  /averylongpath \\",
            "  /anotherlongpath",
        ]
    );
    for line in &lines {
        assert!(line.len() <= 20);
    }
}

#[test]
fn test_wrap_word_longer_than_width() {
    let lines = wrap_command("abcdefghijklmnopqrstuvwxyz", 10);
    // hard break inside the word: 8 characters leave room for the marker
    assert_eq!(lines[0], "abcdefgh \\");
    assert!(lines.len() > 1);
    let mut joined = String::new();
    for line in &lines {
        let body = line.trim_start().trim_end_matches(" \\");
        joined.push_str(body);
    }
    assert_eq!(joined, "abcdefghijklmnopqrstuvwxyz");
}

#[test]
fn test_wrap_tiny_width_still_terminates() {
    let lines = wrap_command("abcdef", 2);
    // a one-character window is the floor: every character still appears
    let mut joined = String::new();
    for line in &lines {
        let body = line.trim_start().trim_end_matches(" \\");
        joined.push_str(body);
    }
    assert_eq!(joined, "abcdef");
}

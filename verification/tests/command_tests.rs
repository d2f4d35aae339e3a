use rsync_tui::command::{build_command, format_command};
use rsync_tui::options::RsyncOptions;

#[test]
fn test_default_options() {
    let opts = RsyncOptions::default();
    let cmd = build_command("/src", "/dest", &opts);

    assert!(cmd.contains(&"-a".to_string()));
    assert!(cmd.contains(&"-v".to_string()));
    assert!(cmd.contains(&"--progress".to_string()));
    assert!(cmd.contains(&"-h".to_string()));
    assert!(!cmd.contains(&"-z".to_string()));
    assert!(!cmd.contains(&"-n".to_string()));
}

#[test]
fn test_source_destination_appended() {
    let opts = RsyncOptions::default();
    let cmd = build_command("/home/user", "server:/backup", &opts);

    assert_eq!(cmd[cmd.len() - 2], "/home/user");
    assert_eq!(cmd[cmd.len() - 1], "server:/backup");
}

#[test]
fn test_ssh_option() {
    let mut opts = RsyncOptions::default();
    opts.use_ssh = true;
    let cmd = build_command("/src", "/dest", &opts);

    let ssh_idx = cmd.iter().position(|x| x == "-e").unwrap();
    assert_eq!(cmd[ssh_idx + 1], "ssh");
}

#[test]
fn test_exclude_patterns() {
    let mut opts = RsyncOptions::default();
    opts.exclude = vec!["*.log".to_string(), "tmp/".to_string()];
    let cmd = build_command("/src", "/dest", &opts);

    assert!(cmd.contains(&"--exclude".to_string()));
    assert!(cmd.contains(&"*.log".to_string()));
    assert!(cmd.contains(&"tmp/".to_string()));
}

#[test]
fn test_dry_run_flag() {
    let mut opts = RsyncOptions::default();
    opts.dry_run = true;
    let cmd = build_command("/src", "/dest", &opts);

    assert!(cmd.contains(&"-n".to_string()));
}

#[test]
fn test_format_command() {
    let mut opts = RsyncOptions::default();
    opts.archive = true;
    opts.verbose = false;
    opts.progress = false;
    opts.human_readable = false;
    let formatted = format_command("/src", "/dest", &opts);

    assert_eq!(formatted, "rsync -a /src /dest");
}

#[test]
fn test_all_options_disabled() {
    let opts = RsyncOptions {
        archive: false,
        verbose: false,
        compress: false,
        dry_run: false,
        progress: false,
        delete: false,
        human_readable: false,
        use_ssh: false,
        delete_source: false,
        delete_excluded: false,
        progress_per_file: false,
        exclude: vec![],
    };
    let cmd = build_command("/src", "/dest", &opts);

    assert_eq!(cmd, vec!["rsync", "/src", "/dest"]);
}

#[test]
fn test_empty_paths_still_appended() {
    let opts = RsyncOptions::default();
    let cmd = build_command("", "", &opts);
    assert_eq!(cmd[cmd.len() - 2], "");
    assert_eq!(cmd[cmd.len() - 1], "");
}

#[test]
fn test_positionals_last_with_everything_enabled() {
    let mut opts = RsyncOptions::default();
    for i in 0..11 {
        if !match i {
            0 => opts.archive,
            1 => opts.verbose,
            2 => opts.compress,
            3 => opts.dry_run,
            4 => opts.progress,
            5 => opts.delete,
            6 => opts.human_readable,
            7 => opts.use_ssh,
            8 => opts.delete_source,
            9 => opts.delete_excluded,
            _ => opts.progress_per_file,
        } {
            opts.toggle(i);
        }
    }
    opts.exclude = vec!["*.tmp".to_string()];
    let cmd = build_command("/from", "/to", &opts);
    assert_eq!(cmd[0], "rsync");
    assert_eq!(cmd[cmd.len() - 2], "/from");
    assert_eq!(cmd[cmd.len() - 1], "/to");
    // the exclusion pair sits just before the positionals
    assert_eq!(cmd[cmd.len() - 4], "--exclude");
    assert_eq!(cmd[cmd.len() - 3], "*.tmp");
}

#[test]
fn test_delete_source_flag() {
    let mut opts = RsyncOptions::default();
    opts.delete_source = true;
    let cmd = build_command("/src", "/dest", &opts);

    assert!(cmd.contains(&"--remove-source-files".to_string()));
}

#[test]
fn test_delete_excluded_flag() {
    let mut opts = RsyncOptions::default();
    opts.delete_excluded = true;
    let cmd = build_command("/src", "/dest", &opts);

    assert!(cmd.contains(&"--delete-excluded".to_string()));
}

#[test]
fn test_progress_per_file_flag() {
    let mut opts = RsyncOptions::default();
    opts.progress_per_file = true;
    let cmd = build_command("/src", "/dest", &opts);

    assert!(cmd.contains(&"--info=progress2".to_string()));
}

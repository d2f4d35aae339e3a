use rsync_tui::options::RsyncOptions;

#[test]
fn test_default_values() {
    let opts = RsyncOptions::default();

    assert!(opts.archive);
    assert!(opts.verbose);
    assert!(!opts.compress);
    assert!(!opts.dry_run);
    assert!(opts.progress);
    assert!(!opts.delete);
    assert!(opts.human_readable);
    assert!(!opts.use_ssh);
    assert!(!opts.delete_source);
    assert!(!opts.delete_excluded);
    assert!(!opts.progress_per_file);
    assert!(opts.exclude.is_empty());
}

#[test]
fn test_toggle_archive() {
    let mut opts = RsyncOptions::default();
    assert!(opts.archive);
    opts.toggle(0);
    assert!(!opts.archive);
    opts.toggle(0);
    assert!(opts.archive);
}

#[test]
fn test_toggle_verbose() {
    let mut opts = RsyncOptions::default();
    assert!(opts.verbose);
    opts.toggle(1);
    assert!(!opts.verbose);
}

#[test]
fn test_toggle_compress() {
    let mut opts = RsyncOptions::default();
    assert!(!opts.compress);
    opts.toggle(2);
    assert!(opts.compress);
}

#[test]
fn test_toggle_dry_run() {
    let mut opts = RsyncOptions::default();
    assert!(!opts.dry_run);
    opts.toggle(3);
    assert!(opts.dry_run);
}

#[test]
fn test_toggle_progress() {
    let mut opts = RsyncOptions::default();
    assert!(opts.progress);
    opts.toggle(4);
    assert!(!opts.progress);
}

#[test]
fn test_toggle_delete() {
    let mut opts = RsyncOptions::default();
    assert!(!opts.delete);
    opts.toggle(5);
    assert!(opts.delete);
}

#[test]
fn test_toggle_human_readable() {
    let mut opts = RsyncOptions::default();
    assert!(opts.human_readable);
    opts.toggle(6);
    assert!(!opts.human_readable);
}

#[test]
fn test_toggle_use_ssh() {
    let mut opts = RsyncOptions::default();
    assert!(!opts.use_ssh);
    opts.toggle(7);
    assert!(opts.use_ssh);
}

#[test]
fn test_toggle_delete_source() {
    let mut opts = RsyncOptions::default();
    assert!(!opts.delete_source);
    opts.toggle(8);
    assert!(opts.delete_source);
}

#[test]
fn test_toggle_delete_excluded() {
    let mut opts = RsyncOptions::default();
    assert!(!opts.delete_excluded);
    opts.toggle(9);
    assert!(opts.delete_excluded);
}

#[test]
fn test_toggle_progress_per_file() {
    let mut opts = RsyncOptions::default();
    assert!(!opts.progress_per_file);
    opts.toggle(10);
    assert!(opts.progress_per_file);
}

#[test]
fn test_toggle_invalid_index() {
    let mut opts = RsyncOptions::default();
    let original = opts.clone();
    opts.toggle(11); // Invalid index
    opts.toggle(100); // Invalid index

    // All values should remain unchanged
    assert_eq!(opts.archive, original.archive);
    assert_eq!(opts.verbose, original.verbose);
    assert_eq!(opts.compress, original.compress);
}

use rsync_tui::app::{App, Mode, Panel};

#[test]
fn test_app_new_defaults() {
    let app = App::new();

    assert!(app.source.is_empty());
    assert!(app.destination.is_empty());
    assert!(app.logs.is_empty());
    assert_eq!(app.active_panel, Panel::Source);
    assert_eq!(app.mode, Mode::Normal);
    assert!(!app.running);
    assert!(!app.should_quit);
}

#[test]
fn test_next_panel_cycles_forward() {
    let mut app = App::new();

    assert_eq!(app.active_panel, Panel::Source);
    app.next_panel();
    assert_eq!(app.active_panel, Panel::Destination);
    app.next_panel();
    assert_eq!(app.active_panel, Panel::Options);
    app.next_panel();
    assert_eq!(app.active_panel, Panel::Logs);
    app.next_panel();
    assert_eq!(app.active_panel, Panel::Progress);
    app.next_panel();
    assert_eq!(app.active_panel, Panel::Source); // Wraps around
}

#[test]
fn test_prev_panel_cycles_backward() {
    let mut app = App::new();

    assert_eq!(app.active_panel, Panel::Source);
    app.prev_panel();
    assert_eq!(app.active_panel, Panel::Progress); // Wraps around
    app.prev_panel();
    assert_eq!(app.active_panel, Panel::Logs);
    app.prev_panel();
    assert_eq!(app.active_panel, Panel::Options);
    app.prev_panel();
    assert_eq!(app.active_panel, Panel::Destination);
    app.prev_panel();
    assert_eq!(app.active_panel, Panel::Source);
}

#[test]
fn test_log_adds_message() {
    let mut app = App::new();

    assert!(app.logs.is_empty());
    app.log("First message".to_string());
    assert_eq!(app.logs.len(), 1);
    assert_eq!(app.logs[0], "First message");

    app.log("Second message".to_string());
    assert_eq!(app.logs.len(), 2);
    assert_eq!(app.logs[1], "Second message");
}

#[test]
fn test_new_progress_fields_default() {
    let app = App::new();
    assert_eq!(app.progress_percentage, "0");
    assert!(app.transfer_info.is_empty());
    assert!(app.progress_output.is_empty());
}

#[test]
fn test_clear_progress_resets_fields() {
    let mut app = App::new();
    app.progress_percentage = "55".to_string();
    app.transfer_info = "1.0MB/s".to_string();
    app.progress_output.push("a line".to_string());
    app.log("kept".to_string());

    app.clear_progress();

    assert_eq!(app.progress_percentage, "0");
    assert!(app.transfer_info.is_empty());
    assert!(app.progress_output.is_empty());
    // the scrollback log is not part of the progress state
    assert_eq!(app.logs.len(), 1);
}

#[test]
fn test_panel_ring_returns_after_five_steps() {
    // six forward requests starting from the initial panel: the fifth
    // returns to the start, the sixth leaves it again
    let mut app = App::new();
    let start = app.active_panel;
    let mut first_return = 0usize;
    for step in 1..=6usize {
        app.next_panel();
        if app.active_panel == start && first_return == 0 {
            first_return = step;
        }
    }
    assert_eq!(first_return, 5);
    assert_ne!(app.active_panel, start);
}

#[test]
fn test_prev_is_inverse_of_next() {
    let mut app = App::new();
    for _ in 0..5 {
        let before = app.active_panel;
        app.next_panel();
        app.prev_panel();
        assert_eq!(app.active_panel, before);
        app.next_panel();
    }
}

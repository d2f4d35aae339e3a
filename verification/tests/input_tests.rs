use rsync_tui::app::{App, Mode, Panel};
use rsync_tui::input::{apply_completion, handle_key, is_quit, Action, Key, KeyInput};

fn plain(code: Key) -> KeyInput {
    KeyInput { code, ctrl: false, alt: false, shift: false }
}

fn ctrl(code: Key) -> KeyInput {
    KeyInput { code, ctrl: true, alt: false, shift: false }
}

#[test]
fn test_is_quit_keys() {
    assert!(is_quit(&plain(Key::Char('q'))));
    assert!(is_quit(&ctrl(Key::Char('c'))));
    assert!(!is_quit(&plain(Key::Char('c'))));
    assert!(!is_quit(&ctrl(Key::Char('q'))));
    assert!(!is_quit(&plain(Key::Tab)));
}

#[test]
fn test_is_quit_demands_exact_modifiers() {
    // the control modifier must stand alone
    let mut shifted = ctrl(Key::Char('c'));
    shifted.shift = true;
    assert!(!is_quit(&shifted));

    let mut alted = ctrl(Key::Char('c'));
    alted.alt = true;
    assert!(!is_quit(&alted));

    let mut shifted_q = plain(Key::Char('q'));
    shifted_q.shift = true;
    assert!(!is_quit(&shifted_q));
}

#[test]
fn test_quit_combo_sets_flag() {
    let mut app = App::new();
    let a = handle_key(&mut app, &ctrl(Key::Char('c')));
    assert_eq!(a, Action::Idle);
    assert!(app.should_quit);

    let mut app = App::new();
    handle_key(&mut app, &plain(Key::Char('q')));
    assert!(app.should_quit);
}

#[test]
fn test_run_combos_request_runs() {
    let mut app = App::new();
    assert_eq!(handle_key(&mut app, &ctrl(Key::Char('s'))), Action::StartRun(false));
    assert_eq!(handle_key(&mut app, &ctrl(Key::Char('n'))), Action::StartRun(true));
    // the combos themselves change no state
    assert!(!app.should_quit);
    assert!(!app.options.dry_run);
}

#[test]
fn test_panel_navigation_keys() {
    let mut app = App::new();
    handle_key(&mut app, &plain(Key::Tab));
    assert_eq!(app.active_panel, Panel::Destination);
    handle_key(&mut app, &plain(Key::BackTab));
    assert_eq!(app.active_panel, Panel::Source);
    handle_key(&mut app, &plain(Key::Char('j')));
    assert_eq!(app.active_panel, Panel::Destination);
    handle_key(&mut app, &plain(Key::Char('k')));
    assert_eq!(app.active_panel, Panel::Source);
    handle_key(&mut app, &plain(Key::Char('3')));
    assert_eq!(app.active_panel, Panel::Options);
    handle_key(&mut app, &plain(Key::Char('5')));
    assert_eq!(app.active_panel, Panel::Progress);
    handle_key(&mut app, &plain(Key::Char('1')));
    assert_eq!(app.active_panel, Panel::Source);
}

#[test]
fn test_toggle_keys_use_fixed_table() {
    let mut app = App::new();
    handle_key(&mut app, &plain(Key::Char('a')));
    assert!(!app.options.archive);
    handle_key(&mut app, &plain(Key::Char('n')));
    assert!(app.options.dry_run);
    handle_key(&mut app, &plain(Key::Char('r')));
    assert!(app.options.delete_source);
    handle_key(&mut app, &plain(Key::Char('x')));
    assert!(app.options.delete_excluded);
    handle_key(&mut app, &plain(Key::Char('f')));
    assert!(app.options.progress_per_file);
}

#[test]
fn test_insert_mode_entered_from_path_panels_only() {
    let mut app = App::new();
    handle_key(&mut app, &plain(Key::Char('i')));
    assert_eq!(app.mode, Mode::Insert);

    let mut app = App::new();
    app.active_panel = Panel::Destination;
    handle_key(&mut app, &plain(Key::Char('i')));
    assert_eq!(app.mode, Mode::Insert);
}

#[test]
fn test_insert_mode_unreachable_elsewhere() {
    for panel in [Panel::Options, Panel::Logs, Panel::Progress] {
        let mut app = App::new();
        app.active_panel = panel;
        handle_key(&mut app, &plain(Key::Char('i')));
        assert_eq!(app.mode, Mode::Normal);
        assert_eq!(app.active_panel, panel);
    }
}

#[test]
fn test_insert_mode_appends_characters() {
    let mut app = App::new();
    handle_key(&mut app, &plain(Key::Char('i')));
    handle_key(&mut app, &plain(Key::Char('a')));
    handle_key(&mut app, &plain(Key::Char('b')));
    assert_eq!(app.source, "ab");
    // in insert mode letter keys edit text instead of toggling
    assert!(app.options.archive);
}

#[test]
fn test_insert_mode_modified_characters_ignored() {
    let mut app = App::new();
    handle_key(&mut app, &plain(Key::Char('i')));
    handle_key(&mut app, &ctrl(Key::Char('a')));
    let mut alt_key = plain(Key::Char('b'));
    alt_key.alt = true;
    handle_key(&mut app, &alt_key);
    assert_eq!(app.source, "");
}

#[test]
fn test_insert_mode_backspace() {
    let mut app = App::new();
    app.active_panel = Panel::Destination;
    handle_key(&mut app, &plain(Key::Char('i')));
    handle_key(&mut app, &plain(Key::Char('x')));
    handle_key(&mut app, &plain(Key::Char('y')));
    handle_key(&mut app, &plain(Key::Backspace));
    assert_eq!(app.destination, "x");
    handle_key(&mut app, &plain(Key::Backspace));
    assert_eq!(app.destination, "");
    // backspace on an empty field changes nothing
    handle_key(&mut app, &plain(Key::Backspace));
    assert_eq!(app.destination, "");
}

#[test]
fn test_insert_mode_escape_returns_to_normal() {
    let mut app = App::new();
    handle_key(&mut app, &plain(Key::Char('i')));
    assert_eq!(app.mode, Mode::Insert);
    handle_key(&mut app, &plain(Key::Esc));
    assert_eq!(app.mode, Mode::Normal);
}

#[test]
fn test_insert_mode_tab_requests_completion() {
    let mut app = App::new();
    handle_key(&mut app, &plain(Key::Char('i')));
    assert_eq!(handle_key(&mut app, &plain(Key::Tab)), Action::Complete);
}

#[test]
fn test_apply_completion_replaces_active_field() {
    let mut app = App::new();
    app.source = "/tm".to_string();
    apply_completion(&mut app, Some("/tmp/".to_string()));
    assert_eq!(app.source, "/tmp/");

    app.active_panel = Panel::Destination;
    app.destination = "/v".to_string();
    apply_completion(&mut app, None);
    assert_eq!(app.destination, "/v");
}

#[test]
fn test_unrecognized_keys_are_ignored() {
    let mut app = App::new();
    handle_key(&mut app, &plain(Key::Other));
    handle_key(&mut app, &plain(Key::Char('!')));
    handle_key(&mut app, &plain(Key::Esc));
    let fresh = App::new();
    assert_eq!(app.active_panel, fresh.active_panel);
    assert_eq!(app.mode, fresh.mode);
    assert!(!app.should_quit);
    assert!(app.logs.is_empty());
}

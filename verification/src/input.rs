//! Routing key presses through the session's state machine: global
//! combinations first, then the bindings of the current mode. Every key
//! has a defined outcome; an unrecognized one changes nothing.

use vstd::prelude::*;
use crate::app::{spec_app_wf, spec_next_panel, spec_prev_panel, App, AppView, Mode, Panel};
use crate::options::spec_toggle;
use crate::text::push_char;

verus! {

/// One logical key, freed of any platform encoding.
#[derive(Clone, Copy, Debug, PartialEq, Eq, Structural)]
pub enum Key {
    Char(char),
    Tab,
    BackTab,
    Esc,
    Backspace,
    Other,
}

/// A key press together with its modifiers.
#[derive(Clone, Copy, Debug, PartialEq, Eq, Structural)]
pub struct KeyInput {
    pub code: Key,
    pub ctrl: bool,
    pub alt: bool,
    pub shift: bool,
}

/// What the surrounding loop must perform after a transition.
#[derive(Clone, Copy, Debug, PartialEq, Eq, Structural)]
pub enum Action {
    /// Nothing beyond the state change.
    Idle,
    /// Launch a run; the flag forces the effective dry-run option.
    StartRun(bool),
    /// Complete the active path field against the filesystem.
    Complete,
}

/// The quit request: a plain `q` with no modifier at all, or `c` with
/// exactly the control modifier.
pub open spec fn spec_is_quit(k: KeyInput) -> bool {
    (k.code == Key::Char('q') && !k.ctrl && !k.alt && !k.shift) || (k.code == Key::Char('c')
        && k.ctrl && !k.alt && !k.shift)
}

/// Whether the key press asks to quit.
pub fn is_quit(key: &KeyInput) -> (r: bool)
    ensures
        r == spec_is_quit(*key),
{
    match key.code {
        Key::Char(c) => (c == 'q' && !key.ctrl && !key.alt && !key.shift) || (c == 'c'
            && key.ctrl && !key.alt && !key.shift),
        _ => false,
    }
}

/// The state after one normal-mode key press: panel navigation, option
/// toggles by the fixed key table, entering text entry from a path
/// panel, and quitting; anything else changes nothing.
pub open spec fn spec_normal_step(s: AppView, k: KeyInput) -> AppView {
    match k.code {
        Key::Tab => AppView { active_panel: spec_next_panel(s.active_panel), ..s },
        Key::BackTab => AppView { active_panel: spec_prev_panel(s.active_panel), ..s },
        Key::Char(c) => {
            if c == 'q' {
                AppView { should_quit: true, ..s }
            } else if c == '1' {
                AppView { active_panel: Panel::Source, ..s }
            } else if c == '2' {
                AppView { active_panel: Panel::Destination, ..s }
            } else if c == '3' {
                AppView { active_panel: Panel::Options, ..s }
            } else if c == '4' {
                AppView { active_panel: Panel::Logs, ..s }
            } else if c == '5' {
                AppView { active_panel: Panel::Progress, ..s }
            } else if c == 'j' {
                AppView { active_panel: spec_next_panel(s.active_panel), ..s }
            } else if c == 'k' {
                AppView { active_panel: spec_prev_panel(s.active_panel), ..s }
            } else if c == 'i' {
                if s.active_panel == Panel::Source || s.active_panel == Panel::Destination {
                    AppView { mode: Mode::Insert, ..s }
                } else {
                    s
                }
            } else if c == 'a' {
                AppView { options: spec_toggle(s.options, 0), ..s }
            } else if c == 'v' {
                AppView { options: spec_toggle(s.options, 1), ..s }
            } else if c == 'z' {
                AppView { options: spec_toggle(s.options, 2), ..s }
            } else if c == 'n' {
                AppView { options: spec_toggle(s.options, 3), ..s }
            } else if c == 'p' {
                AppView { options: spec_toggle(s.options, 4), ..s }
            } else if c == 'd' {
                AppView { options: spec_toggle(s.options, 5), ..s }
            } else if c == 'h' {
                AppView { options: spec_toggle(s.options, 6), ..s }
            } else if c == 'e' {
                AppView { options: spec_toggle(s.options, 7), ..s }
            } else if c == 'r' {
                AppView { options: spec_toggle(s.options, 8), ..s }
            } else if c == 'x' {
                AppView { options: spec_toggle(s.options, 9), ..s }
            } else if c == 'f' {
                AppView { options: spec_toggle(s.options, 10), ..s }
            } else {
                s
            }
        },
        _ => s,
    }
}

/// Handle one key press in normal mode.
pub fn handle_normal_mode(app: &mut App, key: &KeyInput)
    ensures
        final(app)@ == spec_normal_step(old(app)@, *key),
{
    match key.code {
        Key::Tab => app.next_panel(),
        Key::BackTab => app.prev_panel(),
        Key::Char(c) => {
            if c == 'q' {
                app.should_quit = true;
            } else if c == '1' {
                app.active_panel = Panel::Source;
            } else if c == '2' {
                app.active_panel = Panel::Destination;
            } else if c == '3' {
                app.active_panel = Panel::Options;
            } else if c == '4' {
                app.active_panel = Panel::Logs;
            } else if c == '5' {
                app.active_panel = Panel::Progress;
            } else if c == 'j' {
                app.next_panel();
            } else if c == 'k' {
                app.prev_panel();
            } else if c == 'i' {
                if matches!(app.active_panel, Panel::Source | Panel::Destination) {
                    app.mode = Mode::Insert;
                }
            } else if c == 'a' {
                app.options.toggle(0);
            } else if c == 'v' {
                app.options.toggle(1);
            } else if c == 'z' {
                app.options.toggle(2);
            } else if c == 'n' {
                app.options.toggle(3);
            } else if c == 'p' {
                app.options.toggle(4);
            } else if c == 'd' {
                app.options.toggle(5);
            } else if c == 'h' {
                app.options.toggle(6);
            } else if c == 'e' {
                app.options.toggle(7);
            } else if c == 'r' {
                app.options.toggle(8);
            } else if c == 'x' {
                app.options.toggle(9);
            } else if c == 'f' {
                app.options.toggle(10);
            }
        },
        _ => {},
    }
    proof {
        assert(app@ =~= spec_normal_step(old(app)@, *key));
    }
}

/// The state and the follow-up action after one insert-mode key press:
/// escape returns to normal mode, the completion key asks the loop to
/// complete the active field, a plain printable character is appended to
/// it, and backspace removes its last character.
pub open spec fn spec_insert_step(s: AppView, k: KeyInput) -> (AppView, Action) {
    match k.code {
        Key::Esc => ((AppView { mode: Mode::Normal, ..s }), Action::Idle),
        Key::Tab => (
            s,
            if s.active_panel == Panel::Source || s.active_panel == Panel::Destination {
                Action::Complete
            } else {
                Action::Idle
            },
        ),
        Key::Char(c) => {
            if !k.ctrl && !k.alt {
                match s.active_panel {
                    Panel::Source => ((AppView { source: s.source.push(c), ..s }), Action::Idle),
                    Panel::Destination => (
                        (AppView { destination: s.destination.push(c), ..s }),
                        Action::Idle,
                    ),
                    _ => (s, Action::Idle),
                }
            } else {
                (s, Action::Idle)
            }
        },
        Key::Backspace => {
            match s.active_panel {
                Panel::Source => (
                    (AppView {
                        source: if s.source.len() > 0 {
                            s.source.drop_last()
                        } else {
                            s.source
                        },
                        ..s
                    }),
                    Action::Idle,
                ),
                Panel::Destination => (
                    (AppView {
                        destination: if s.destination.len() > 0 {
                            s.destination.drop_last()
                        } else {
                            s.destination
                        },
                        ..s
                    }),
                    Action::Idle,
                ),
                _ => (s, Action::Idle),
            }
        },
        _ => (s, Action::Idle),
    }
}

/// Handle one key press in insert mode.
pub fn handle_insert_mode(app: &mut App, key: &KeyInput) -> (r: Action)
    ensures
        (final(app)@, r) == spec_insert_step(old(app)@, *key),
{
    let r = match key.code {
        Key::Esc => {
            app.mode = Mode::Normal;
            Action::Idle
        },
        Key::Tab => {
            if matches!(app.active_panel, Panel::Source | Panel::Destination) {
                Action::Complete
            } else {
                Action::Idle
            }
        },
        Key::Char(c) => {
            if !key.ctrl && !key.alt {
                match app.active_panel {
                    Panel::Source => push_char(&mut app.source, c),
                    Panel::Destination => push_char(&mut app.destination, c),
                    _ => {},
                }
            }
            Action::Idle
        },
        Key::Backspace => {
            match app.active_panel {
                Panel::Source => {
                    let n = app.source.as_str().unicode_len();
                    if n > 0 {
                        app.source = app.source.as_str().substring_char(0, n - 1).to_owned();
                        proof {
                            assert(app.source@ =~= old(app)@.source.drop_last());
                        }
                    }
                },
                Panel::Destination => {
                    let n = app.destination.as_str().unicode_len();
                    if n > 0 {
                        app.destination = app.destination.as_str().substring_char(
                            0,
                            n - 1,
                        ).to_owned();
                        proof {
                            assert(app.destination@ =~= old(app)@.destination.drop_last());
                        }
                    }
                },
                _ => {},
            }
            Action::Idle
        },
        _ => Action::Idle,
    };
    proof {
        assert(app@ =~= spec_insert_step(old(app)@, *key).0);
    }
    r
}

/// Replace the active path field with a completion, when one was found.
pub open spec fn spec_apply_completion(s: AppView, completed: Option<Seq<char>>) -> AppView {
    match completed {
        None => s,
        Some(c) => match s.active_panel {
            Panel::Source => AppView { source: c, ..s },
            Panel::Destination => AppView { destination: c, ..s },
            _ => s,
        },
    }
}

/// Store a found completion into the active path field; no completion,
/// or focus away from the path fields, changes nothing.
pub fn apply_completion(app: &mut App, completed: Option<String>)
    ensures
        final(app)@ == spec_apply_completion(old(app)@, completed.deep_view()),
{
    match completed {
        None => {},
        Some(c) => {
            match app.active_panel {
                Panel::Source => {
                    app.source = c;
                },
                Panel::Destination => {
                    app.destination = c;
                },
                _ => {},
            }
        },
    }
    proof {
        assert(app@ =~= spec_apply_completion(old(app)@, completed.deep_view()));
    }
}

/// The state and the follow-up action after any key press: the global
/// control combinations for quitting and launching runs come first, then
/// the bindings of the current mode.
pub open spec fn spec_handle_key(s: AppView, k: KeyInput) -> (AppView, Action) {
    if k.ctrl && k.code == Key::Char('c') {
        ((AppView { should_quit: true, ..s }), Action::Idle)
    } else if k.ctrl && k.code == Key::Char('s') {
        (s, Action::StartRun(false))
    } else if k.ctrl && k.code == Key::Char('n') {
        (s, Action::StartRun(true))
    } else if s.mode == Mode::Normal {
        (spec_normal_step(s, k), Action::Idle)
    } else {
        spec_insert_step(s, k)
    }
}

/// Route one key press: global combinations, then the current mode.
pub fn handle_key(app: &mut App, key: &KeyInput) -> (r: Action)
    ensures
        (final(app)@, r) == spec_handle_key(old(app)@, *key),
{
    if key.ctrl && matches!(key.code, Key::Char('c')) {
        app.should_quit = true;
        proof {
            assert(app@ =~= spec_handle_key(old(app)@, *key).0);
        }
        return Action::Idle;
    }
    if key.ctrl && matches!(key.code, Key::Char('s')) {
        return Action::StartRun(false);
    }
    if key.ctrl && matches!(key.code, Key::Char('n')) {
        return Action::StartRun(true);
    }
    match app.mode {
        Mode::Normal => {
            handle_normal_mode(app, key);
            Action::Idle
        },
        Mode::Insert => handle_insert_mode(app, key),
    }
}

/// Text entry is unreachable from the options, logs and progress
/// panels: requesting it there leaves the mode, and everything else,
/// unchanged.
pub proof fn lemma_insert_unreachable_outside_path_panels(s: AppView, k: KeyInput)
    requires
        s.active_panel == Panel::Options || s.active_panel == Panel::Logs || s.active_panel
            == Panel::Progress,
        k.code == Key::Char('i'),
    ensures
        spec_normal_step(s, k).mode == s.mode,
        spec_normal_step(s, k) == s,
{
}

/// Every transition keeps the session well-formed: insert mode is only
/// ever reached while a path panel has the focus.
pub proof fn lemma_handle_key_preserves_wf(s: AppView, k: KeyInput)
    requires
        spec_app_wf(s),
    ensures
        spec_app_wf(spec_handle_key(s, k).0),
{
}

} // verus!

//! The mutable session state: focus panel, edit mode, the two editable
//! path fields, the option set, the scrollback log, and the progress
//! fields of the active run.

use vstd::prelude::*;
use crate::options::{spec_default_options, OptionsView, RsyncOptions};

verus! {

/// Focus region of the interface.
#[derive(Clone, Copy, Debug, PartialEq, Eq, Structural)]
pub enum Panel {
    Source,
    Destination,
    Options,
    Logs,
    Progress,
}

/// Editing mode: navigation and toggling, or text entry.
#[derive(Clone, Copy, Debug, PartialEq, Eq, Structural)]
pub enum Mode {
    Normal,
    Insert,
}

/// Mathematical view of the whole session state. The progress percentage
/// is carried as the decimal numeral driving the gauge, already clamped
/// at one hundred.
#[verifier::ext_equal]
pub ghost struct AppView {
    pub source: Seq<char>,
    pub destination: Seq<char>,
    pub options: OptionsView,
    pub logs: Seq<Seq<char>>,
    pub active_panel: Panel,
    pub mode: Mode,
    pub running: bool,
    pub should_quit: bool,
    pub progress_percentage: Seq<char>,
    pub transfer_info: Seq<char>,
    pub progress_output: Seq<Seq<char>>,
}

/// Application state.
pub struct App {
    pub source: String,
    pub destination: String,
    pub options: RsyncOptions,
    pub logs: Vec<String>,
    pub active_panel: Panel,
    pub mode: Mode,
    pub running: bool,
    pub should_quit: bool,
    /// Decimal numeral of the gauge position, clamped at one hundred.
    pub progress_percentage: String,
    pub transfer_info: String,
    pub progress_output: Vec<String>,
}

impl View for App {
    type V = AppView;

    open spec fn view(&self) -> AppView {
        AppView {
            source: self.source@,
            destination: self.destination@,
            options: self.options@,
            logs: self.logs.deep_view(),
            active_panel: self.active_panel,
            mode: self.mode,
            running: self.running,
            should_quit: self.should_quit,
            progress_percentage: self.progress_percentage@,
            transfer_info: self.transfer_info@,
            progress_output: self.progress_output.deep_view(),
        }
    }
}

/// The state a session starts in: empty fields, default options, focus on
/// the source panel, normal mode, gauge at zero.
pub open spec fn spec_initial_app() -> AppView {
    AppView {
        source: Seq::empty(),
        destination: Seq::empty(),
        options: spec_default_options(),
        logs: Seq::empty(),
        active_panel: Panel::Source,
        mode: Mode::Normal,
        running: false,
        should_quit: false,
        progress_percentage: "0"@,
        transfer_info: Seq::empty(),
        progress_output: Seq::empty(),
    }
}

/// The panel after the given one in the fixed forward ring.
pub open spec fn spec_next_panel(p: Panel) -> Panel {
    match p {
        Panel::Source => Panel::Destination,
        Panel::Destination => Panel::Options,
        Panel::Options => Panel::Logs,
        Panel::Logs => Panel::Progress,
        Panel::Progress => Panel::Source,
    }
}

/// The panel before the given one in the fixed forward ring.
pub open spec fn spec_prev_panel(p: Panel) -> Panel {
    match p {
        Panel::Source => Panel::Progress,
        Panel::Destination => Panel::Source,
        Panel::Options => Panel::Destination,
        Panel::Logs => Panel::Options,
        Panel::Progress => Panel::Logs,
    }
}

/// Text entry is only ever active over one of the two path fields.
pub open spec fn spec_app_wf(s: AppView) -> bool {
    s.mode == Mode::Insert ==> (s.active_panel == Panel::Source || s.active_panel
        == Panel::Destination)
}

impl App {
    pub fn new() -> (r: Self)
        ensures
            r@ == spec_initial_app(),
            spec_app_wf(r@),
    {
        let r = App {
            source: String::new(),
            destination: String::new(),
            options: RsyncOptions::default(),
            logs: Vec::new(),
            active_panel: Panel::Source,
            mode: Mode::Normal,
            running: false,
            should_quit: false,
            progress_percentage: String::from_str("0"),
            transfer_info: String::new(),
            progress_output: Vec::new(),
        };
        proof {
            assert(r@ =~= spec_initial_app());
        }
        r
    }

    /// Move focus to the next panel of the ring.
    pub fn next_panel(&mut self)
        ensures
            final(self)@ == (AppView {
                active_panel: spec_next_panel(old(self)@.active_panel),
                ..old(self)@
            }),
    {
        self.active_panel = match self.active_panel {
            Panel::Source => Panel::Destination,
            Panel::Destination => Panel::Options,
            Panel::Options => Panel::Logs,
            Panel::Logs => Panel::Progress,
            Panel::Progress => Panel::Source,
        };
        proof {
            assert(self@ =~= AppView {
                active_panel: spec_next_panel(old(self)@.active_panel),
                ..old(self)@
            });
        }
    }

    /// Move focus to the previous panel of the ring.
    pub fn prev_panel(&mut self)
        ensures
            final(self)@ == (AppView {
                active_panel: spec_prev_panel(old(self)@.active_panel),
                ..old(self)@
            }),
    {
        self.active_panel = match self.active_panel {
            Panel::Source => Panel::Progress,
            Panel::Destination => Panel::Source,
            Panel::Options => Panel::Destination,
            Panel::Logs => Panel::Options,
            Panel::Progress => Panel::Logs,
        };
        proof {
            assert(self@ =~= AppView {
                active_panel: spec_prev_panel(old(self)@.active_panel),
                ..old(self)@
            });
        }
    }

    /// Append one message to the scrollback log.
    pub fn log(&mut self, message: String)
        ensures
            final(self)@ == (AppView { logs: old(self)@.logs.push(message@), ..old(self)@ }),
    {
        self.logs.push(message);
        proof {
            assert(self@ =~= AppView { logs: old(self)@.logs.push(message@), ..old(self)@ });
        }
    }

    /// Reset the progress fields for a fresh run: gauge at zero, no
    /// transfer information, no raw output lines.
    pub fn clear_progress(&mut self)
        ensures
            final(self)@ == (AppView {
                progress_percentage: "0"@,
                transfer_info: Seq::empty(),
                progress_output: Seq::empty(),
                ..old(self)@
            }),
    {
        self.progress_percentage = String::from_str("0");
        self.transfer_info = String::new();
        self.progress_output = Vec::new();
        proof {
            assert(self@ =~= AppView {
                progress_percentage: "0"@,
                transfer_info: Seq::empty(),
                progress_output: Seq::empty(),
                ..old(self)@
            });
        }
    }
}

/// Walking the forward ring returns to the starting panel after exactly
/// five steps, one step per panel, and the backward walk is the exact
/// inverse of the forward walk.
pub proof fn lemma_panel_ring(p: Panel)
    ensures
        spec_next_panel(spec_next_panel(spec_next_panel(spec_next_panel(spec_next_panel(p)))))
            == p,
        spec_prev_panel(spec_next_panel(p)) == p,
        spec_next_panel(spec_prev_panel(p)) == p,
        spec_next_panel(p) != p,
        spec_next_panel(spec_next_panel(p)) != p,
        spec_next_panel(spec_next_panel(spec_next_panel(p))) != p,
        spec_next_panel(spec_next_panel(spec_next_panel(spec_next_panel(p)))) != p,
{
}

} // verus!

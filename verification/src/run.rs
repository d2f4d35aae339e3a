//! The verified half of supervising one run of the external sync tool:
//! building the run request, folding each output line into the session
//! state, and recording the final outcome. The surrounding loop spawns
//! the process and hands every line and the exit report back in.

use vstd::prelude::*;
use crate::app::{App, AppView};
use crate::command::{build_command, spec_command};
use crate::options::OptionsView;
use crate::progress::{parse_progress, spec_parse_progress};
use crate::text::{i32_to_string, join_with_spaces, spec_idec, spec_join_space};

verus! {

/// The option set one run is performed with: the stored flags, with
/// dry-run forced to the invocation kind's value — on for a dry run,
/// off for a normal one — whatever the stored flag says. Nothing else
/// is touched.
pub open spec fn spec_effective_options(o: OptionsView, dry_run: bool) -> OptionsView {
    OptionsView { dry_run: dry_run, ..o }
}

/// The state and the argument list at the start of one run: the command
/// line is logged, the progress fields are reset, and the session is
/// marked running. The stored option set is left untouched.
pub open spec fn spec_start_run(s: AppView, dry_run: bool) -> (AppView, Seq<Seq<char>>) {
    let args = spec_command(s.source, s.destination, spec_effective_options(s.options, dry_run));
    (
        AppView {
            logs: s.logs.push("Running: "@ + spec_join_space(args)),
            progress_percentage: "0"@,
            transfer_info: Seq::empty(),
            progress_output: Seq::empty(),
            running: true,
            ..s
        },
        args,
    )
}

/// Begin one run: build the argument list from the current fields and
/// an ephemeral effective option set, log the command line, reset the
/// progress fields, and mark the session running.
#[verifier::rlimit(60)]
pub fn start_run(app: &mut App, dry_run: bool) -> (args: Vec<String>)
    ensures
        (final(app)@, args.deep_view()) == spec_start_run(old(app)@, dry_run),
        final(app)@.options == old(app)@.options,
{
    let mut opts = app.options.clone();
    opts.dry_run = dry_run;
    proof {
        assert(opts@ =~= spec_effective_options(old(app)@.options, dry_run));
    }
    let args = build_command(app.source.as_str(), app.destination.as_str(), &opts);
    let joined = join_with_spaces(&args);
    let mut msg = "Running: ".to_owned();
    msg.append(joined.as_str());
    app.log(msg);
    app.clear_progress();
    app.running = true;
    proof {
        assert(app@ =~= spec_start_run(old(app)@, dry_run).0);
    }
    args
}

/// The state after one line of the tool's standard output: a line that
/// parses as a progress signal moves the gauge and the transfer
/// information; every line, parsed or not, is appended verbatim to both
/// the raw output buffer and the scrollback log.
pub open spec fn spec_stdout_step(s: AppView, line: Seq<char>) -> AppView {
    let gauged = match spec_parse_progress(line) {
        Some(pi) => AppView { progress_percentage: pi.0, transfer_info: pi.1, ..s },
        None => s,
    };
    AppView {
        progress_output: gauged.progress_output.push(line),
        logs: gauged.logs.push(line),
        ..gauged
    }
}

/// Fold one standard-output line into the session state.
pub fn record_stdout_line(app: &mut App, line: String)
    ensures
        final(app)@ == spec_stdout_step(old(app)@, line@),
{
    let ghost lv = line@;
    match parse_progress(line.as_str()) {
        Some(u) => {
            app.progress_percentage = u.percentage;
            app.transfer_info = u.info;
        },
        None => {},
    }
    app.progress_output.push(line.clone());
    app.log(line);
    proof {
        assert(app@ =~= spec_stdout_step(old(app)@, lv));
    }
}

/// The state after one line of the tool's standard error: the line is
/// tagged with an error marker and appended to both the raw output
/// buffer and the scrollback log.
pub open spec fn spec_stderr_step(s: AppView, line: Seq<char>) -> AppView {
    AppView {
        progress_output: s.progress_output.push("[ERR] "@ + line),
        logs: s.logs.push("[ERR] "@ + line),
        ..s
    }
}

/// Fold one standard-error line into the session state.
pub fn record_stderr_line(app: &mut App, line: String)
    ensures
        final(app)@ == spec_stderr_step(old(app)@, line@),
{
    let mut tagged = "[ERR] ".to_owned();
    tagged.append(line.as_str());
    app.progress_output.push(tagged.clone());
    app.log(tagged);
    proof {
        assert(app@ =~= spec_stderr_step(old(app)@, line@));
    }
}

/// How one run ended: the process exited and reported success or an
/// optional exit code, waiting for it failed, or it never spawned. The
/// strings carry the reported reason.
pub enum RunOutcome {
    Exited { success: bool, code: Option<i32> },
    WaitFailed(String),
    SpawnFailed(String),
}

/// The rendering of an optional exit code in the failure log line.
pub open spec fn spec_code_text(code: Option<i32>) -> Seq<char> {
    match code {
        Some(c) => "Some("@ + spec_idec(c as int) + ")"@,
        None => "None"@,
    }
}

/// The state after a run ends: success forces the gauge to one hundred
/// and logs a success line; a failed exit logs the exit code; a wait or
/// spawn failure logs its reason. On every path the session stops
/// running, and nothing else changes.
pub open spec fn spec_finish_run(s: AppView, outcome: RunOutcome) -> AppView {
    match outcome {
        RunOutcome::Exited { success, code } => {
            if success {
                AppView {
                    running: false,
                    progress_percentage: "100"@,
                    logs: s.logs.push("Sync completed successfully"@),
                    ..s
                }
            } else {
                AppView {
                    running: false,
                    logs: s.logs.push("Sync failed with exit code: "@ + spec_code_text(code)),
                    ..s
                }
            }
        },
        RunOutcome::WaitFailed(msg) => AppView {
            running: false,
            logs: s.logs.push("Failed to wait for rsync: "@ + msg@),
            ..s
        },
        RunOutcome::SpawnFailed(msg) => AppView {
            running: false,
            logs: s.logs.push("Failed to execute rsync: "@ + msg@),
            ..s
        },
    }
}

/// Record how the run ended and mark the session idle again.
pub fn finish_run(app: &mut App, outcome: RunOutcome)
    ensures
        final(app)@ == spec_finish_run(old(app)@, outcome),
{
    let ghost oc = outcome;
    match outcome {
        RunOutcome::Exited { success, code } => {
            if success {
                app.progress_percentage = "100".to_owned();
                app.log("Sync completed successfully".to_owned());
            } else {
                let mut msg = "Sync failed with exit code: ".to_owned();
                match code {
                    Some(c) => {
                        msg.append("Some(");
                        let digits = i32_to_string(c);
                        msg.append(digits.as_str());
                        msg.append(")");
                        proof {
                            assert(msg@ =~= "Sync failed with exit code: "@ + spec_code_text(
                                code,
                            ));
                        }
                    },
                    None => {
                        msg.append("None");
                    },
                }
                app.log(msg);
            }
        },
        RunOutcome::WaitFailed(msg) => {
            let mut line = "Failed to wait for rsync: ".to_owned();
            line.append(msg.as_str());
            app.log(line);
        },
        RunOutcome::SpawnFailed(msg) => {
            let mut line = "Failed to execute rsync: ".to_owned();
            line.append(msg.as_str());
            app.log(line);
        },
    }
    app.running = false;
    proof {
        assert(app@ =~= spec_finish_run(old(app)@, oc));
    }
}

/// Forcing dry-run for one run request never mutates the stored option
/// set: only the ephemeral effective copy differs from it, and there
/// only in the dry-run flag, which takes the invocation kind's value.
pub proof fn lemma_run_request_keeps_options(s: AppView, dry_run: bool)
    ensures
        spec_start_run(s, dry_run).0.options == s.options,
        spec_effective_options(s.options, dry_run).dry_run == dry_run,
        spec_effective_options(s.options, dry_run) == (OptionsView { dry_run: dry_run, ..s.options }),
{
}

} // verus!

//! The process boundary: what a finished command prints to the error stream and
//! which code the process exits with.

use vstd::prelude::*;

use crate::daemon::process::WORKER_ROLE;
use crate::daemon::worker::bootstrap;
use crate::daemon::worker::{WorkerBootstrapError, WorkerStop};
use crate::error;
use crate::error::{CliError, ErrorKind};
use crate::output;
use crate::output::{output_write_error, render_structured_error_with_style, StylePolicy};
use crate::policy::redact;
use crate::policy::redact::WriterDiagnosticSink;
use crate::text::bytes_equal;

verus! {

pub const SUCCESS_EXIT: i32 = 0;

pub const FAILED_WORKER_EXIT: i32 = 1;

pub const SIGINT_EXIT: i32 = 130;

pub const SIGTERM_EXIT: i32 = 143;

/// How a process ends: its exit code, and the one text that goes to the error
/// stream before, if any.
#[derive(Clone, Debug, PartialEq, Eq)]
pub struct BoundaryOutcome {
    pub exit_code: i32,
    pub diagnostic: Option<String>,
}

/// The mathematical content of a [`BoundaryOutcome`].
#[verifier::ext_equal]
pub struct Ending {
    pub exit_code: int,
    pub diagnostic: Option<Seq<char>>,
}

impl View for BoundaryOutcome {
    type V = Ending;

    open spec fn view(&self) -> Ending {
        Ending {
            exit_code: self.exit_code as int,
            diagnostic: crate::text::optional(self.diagnostic),
        }
    }
}

/// A failure is rendered once, and exits with the code of its kind.
pub open spec fn ending(result: Result<(), CliError>, style: StylePolicy) -> Ending {
    match result {
        Ok(_) => Ending { exit_code: SUCCESS_EXIT as int, diagnostic: None },
        Err(failure) => Ending {
            exit_code: error::exit_status(error::kind_exit_code(failure@.kind)) as int,
            diagnostic: Some(output::structured_error(failure@, style)),
        },
    }
}

/// Ends a command.
pub fn finish_at_top_level_with_style(result: Result<(), CliError>, style: StylePolicy) -> (r:
    BoundaryOutcome)
    ensures
        r@ == ending(result, style),
{
    match result {
        Ok(()) => BoundaryOutcome { exit_code: SUCCESS_EXIT, diagnostic: None },
        Err(failure) => {
            let exit_code = failure.canonical_exit_code().as_u8() as i32;
            let rendered = render_structured_error_with_style(&failure, style);
            BoundaryOutcome { exit_code, diagnostic: Some(rendered) }
        },
    }
}

/// Ends a process. A signal decides alone: its code is the exit code, and
/// nothing is printed.
pub fn finish_process(signalled: i32, result: Result<(), CliError>, style: StylePolicy) -> (r:
    BoundaryOutcome)
    ensures
        r@ == (if signalled != 0 {
            (Ending { exit_code: signalled as int, diagnostic: None })
        } else {
            ending(result, style)
        }),
{
    if signalled != 0 {
        BoundaryOutcome { exit_code: signalled, diagnostic: None }
    } else {
        finish_at_top_level_with_style(result, style)
    }
}

/// The exit code of each signal that ends a command.
pub fn signal_exit(interrupted: bool) -> (r: i32)
    ensures
        r == (if interrupted {
            SIGINT_EXIT
        } else {
            SIGTERM_EXIT
        }),
{
    if interrupted {
        SIGINT_EXIT
    } else {
        SIGTERM_EXIT
    }
}

/// The arguments ask for a worker: the first one is its role.
pub open spec fn asks_for_worker(arguments: Seq<Vec<u8>>) -> bool {
    arguments.len() > 0 && arguments[0]@ == vstd::utf8::encode_utf8(WORKER_ROLE@)
}

pub fn is_hidden_daemon_invocation(arguments: &[Vec<u8>]) -> (r: bool)
    ensures
        r == asks_for_worker(arguments@),
{
    arguments.len() > 0 && bytes_equal(arguments[0].as_slice(), WORKER_ROLE.as_bytes())
}

/// What the arguments of a process ask for.
#[derive(Clone, Copy, Debug, PartialEq, Eq, Structural)]
pub enum Entry {
    Command,
    Worker,
    /// A worker with further arguments, which no worker takes.
    InvalidWorker,
}

/// Decides between a command and a worker.
pub fn process_entry(arguments: &[Vec<u8>]) -> (r: Entry)
    ensures
        r == (if !asks_for_worker(arguments@) {
            Entry::Command
        } else if arguments@.len() == 1 {
            Entry::Worker
        } else {
            Entry::InvalidWorker
        }),
{
    if !is_hidden_daemon_invocation(arguments) {
        Entry::Command
    } else if arguments.len() == 1 {
        Entry::Worker
    } else {
        Entry::InvalidWorker
    }
}

/// Ends a worker process. The text of a failure holds nothing of what the worker
/// was given.
pub fn finish_worker(result: Result<WorkerStop, WorkerBootstrapError>) -> (r: BoundaryOutcome)
    ensures
        r@ == (match result {
            Ok(_) => (Ending { exit_code: SUCCESS_EXIT as int, diagnostic: None }),
            Err(failure) => (Ending {
                exit_code: FAILED_WORKER_EXIT as int,
                diagnostic: Some(
                    "mcp-cli daemon worker failed: "@ + bootstrap::failure_text(failure) + "\n"@,
                ),
            }),
        }),
{
    match result {
        Ok(_) => BoundaryOutcome { exit_code: SUCCESS_EXIT, diagnostic: None },
        Err(failure) => {
            let mut line = "mcp-cli daemon worker failed: ".to_owned();
            line.append(failure.display_text());
            line.append("\n");
            BoundaryOutcome { exit_code: FAILED_WORKER_EXIT, diagnostic: Some(line) }
        },
    }
}

/// The home directory of a process: the first of the two variables that is set,
/// and the working directory where neither is.
pub open spec fn home(home: Option<Seq<u8>>, profile: Option<Seq<u8>>, cwd: Seq<u8>) -> Seq<u8> {
    match home {
        Some(path) => path,
        None => match profile {
            Some(path) => path,
            None => cwd,
        },
    }
}

pub fn process_home(home: Option<Vec<u8>>, profile: Option<Vec<u8>>, cwd: Vec<u8>) -> (r: Vec<u8>)
    ensures
        r@ == self::home(bootstrap::optional_bytes(home), bootstrap::optional_bytes(profile), cwd@),
{
    match home {
        Some(path) => path,
        None => match profile {
            Some(path) => path,
            None => cwd,
        },
    }
}

/// Debug output is on where its variable is set to something.
pub fn debug_enabled(variable: &Option<Vec<u8>>) -> (r: bool)
    ensures
        r == (variable matches Some(value) && value@.len() > 0),
{
    match variable {
        Some(value) => value.len() > 0,
        None => false,
    }
}

/// The error for a working directory that cannot be found. Nothing of the cause
/// shows.
pub fn current_directory_error<E>(source: &E) -> (r: CliError)
    ensures
        r@ == error::plain_error(
            ErrorKind::ConfigReadError,
            "Could not determine current directory"@,
        ).details("The current working directory is unavailable"@).source(),
{
    CliError::from_kind(
        ErrorKind::ConfigReadError,
        "Could not determine current directory",
    ).with_details("The current working directory is unavailable").with_source(source)
}

/// A text that ends with a line break.
pub open spec fn as_lines(rendered: Seq<char>) -> Seq<char> {
    if rendered.len() > 0 && rendered.last() == '\n' {
        rendered
    } else {
        rendered + "\n"@
    }
}

/// The help of a command as it is printed.
pub fn help_output(rendered: String) -> (r: String)
    ensures
        r@ == as_lines(rendered@),
{
    let length = rendered.as_str().unicode_len();
    if length > 0 && rendered.as_str().get_char(length - 1) == '\n' {
        return rendered;
    }
    let mut output = rendered;
    output.append("\n");
    output
}

/// The version of a program as it is printed.
pub fn version_output(name: &str, version: &str) -> (r: String)
    ensures
        r@ == name@ + " "@ + version@ + "\n"@,
{
    let mut output = name.to_owned();
    output.append(" ");
    output.append(version);
    output.append("\n");
    output
}

/// What is reported when a command returns before its connections are closed.
pub fn leftover_resources(active: usize) -> (r: Option<&'static str>)
    ensures
        active == 0 ==> r is None,
        active > 0 ==> (r matches Some(message) && message@
            == "command returned while direct resource cleanup was still in progress"@),
{
    if active == 0 {
        None
    } else {
        Some("command returned while direct resource cleanup was still in progress")
    }
}

/// What an invocation asks for.
#[derive(Clone, Copy, Debug, PartialEq, Eq, Structural)]
pub enum Invocation {
    Help,
    Version,
    Command,
}

/// What an application does at one time.
#[derive(Clone, Copy, Debug, PartialEq, Eq, Structural)]
pub enum Stage {
    ParseArguments,
    WriteHelp,
    WriteVersion,
    ReadRuntime,
    FindDirectory,
    /// Load the configuration, connect, and dispatch.
    Execute,
    Render,
    WriteOutput,
}

/// What came of a [`Stage`].
#[derive(Clone, Debug)]
pub enum StageEvent {
    Parsed(Invocation),
    Done,
    Failed(CliError),
}

/// How an application goes on.
#[derive(Clone, Debug)]
pub enum Progress {
    Next(Stage),
    Succeeded,
    Failed(CliError),
}

/// The stage that follows a successful one; none follows the last one.
pub open spec fn following(stage: Stage) -> Option<Stage> {
    match stage {
        Stage::ParseArguments => Some(Stage::ReadRuntime),
        Stage::ReadRuntime => Some(Stage::FindDirectory),
        Stage::FindDirectory => Some(Stage::Execute),
        Stage::Execute => Some(Stage::Render),
        Stage::Render => Some(Stage::WriteOutput),
        Stage::WriteHelp | Stage::WriteVersion | Stage::WriteOutput => None,
    }
}

/// The stage after the arguments: help and version deliberately precede the
/// runtime environment and everything behind it.
pub open spec fn first_stage(invocation: Invocation) -> Stage {
    match invocation {
        Invocation::Help => Stage::WriteHelp,
        Invocation::Version => Stage::WriteVersion,
        Invocation::Command => Stage::ReadRuntime,
    }
}

/// The error that a failed stage is reported with. Output and directory failures
/// have their own words; what a command reports is redacted.
pub open spec fn stage_failure(
    stage: Stage,
    failure: error::ErrorContent,
    secrets: Set<Seq<u8>>,
) -> error::ErrorContent {
    match stage {
        Stage::WriteHelp | Stage::WriteVersion | Stage::WriteOutput => error::plain_error(
            ErrorKind::NetworkError,
            "Failed to write command output"@,
        ).details("The destination output stream could not be written"@).source(),
        Stage::FindDirectory => error::plain_error(
            ErrorKind::ConfigReadError,
            "Could not determine current directory"@,
        ).details("The current working directory is unavailable"@).source(),
        Stage::Execute => redact::redacted_failure(secrets, failure),
        _ => failure,
    }
}

/// Goes on after a stage.
pub fn advance(stage: Stage, event: StageEvent, sink: &WriterDiagnosticSink) -> (r: Progress)
    ensures
        match event {
            StageEvent::Failed(failure) => r matches Progress::Failed(reported) && reported@
                == stage_failure(stage, failure@, sink@.secrets),
            StageEvent::Parsed(invocation) => r == Progress::Next(first_stage(invocation)),
            StageEvent::Done => match following(stage) {
                Some(next) => r == Progress::Next(next),
                None => r is Succeeded,
            },
        },
{
    match event {
        StageEvent::Failed(failure) => match stage {
            Stage::WriteHelp | Stage::WriteVersion | Stage::WriteOutput => Progress::Failed(
                output_write_error(&failure),
            ),
            Stage::FindDirectory => Progress::Failed(current_directory_error(&failure)),
            Stage::Execute => Progress::Failed(sink.redact_error(failure)),
            _ => Progress::Failed(failure),
        },
        StageEvent::Parsed(invocation) => match invocation {
            Invocation::Help => Progress::Next(Stage::WriteHelp),
            Invocation::Version => Progress::Next(Stage::WriteVersion),
            Invocation::Command => Progress::Next(Stage::ReadRuntime),
        },
        StageEvent::Done => match stage {
            Stage::ParseArguments => Progress::Next(Stage::ReadRuntime),
            Stage::ReadRuntime => Progress::Next(Stage::FindDirectory),
            Stage::FindDirectory => Progress::Next(Stage::Execute),
            Stage::Execute => Progress::Next(Stage::Render),
            Stage::Render => Progress::Next(Stage::WriteOutput),
            Stage::WriteHelp | Stage::WriteVersion | Stage::WriteOutput => Progress::Succeeded,
        },
    }
}

/// Help and version do nothing but write: no environment is read, and nothing is
/// loaded or connected.
pub proof fn help_and_version_only_write(invocation: Invocation)
    requires
        invocation != Invocation::Command,
    ensures
        first_stage(invocation) is WriteHelp || first_stage(invocation) is WriteVersion,
        following(first_stage(invocation)) is None,
{
}

/// The first of several signals that come to a process; none is zero.
pub open spec fn first_signal(codes: Seq<i32>) -> i32
    decreases codes.len(),
{
    if codes.len() == 0 {
        0
    } else {
        recorded_signal(first_signal(codes.drop_last()), codes.last()).0
    }
}

/// A signal is recorded unless one is recorded already; only a recorded one
/// cancels the command.
pub open spec fn recorded_signal(recorded: i32, code: i32) -> (i32, bool) {
    if recorded == 0 {
        (code, true)
    } else {
        (recorded, false)
    }
}

pub fn record_signal(recorded: i32, code: i32) -> (r: (i32, bool))
    ensures
        r == recorded_signal(recorded, code),
{
    if recorded == 0 {
        (code, true)
    } else {
        (recorded, false)
    }
}

/// Whatever signals follow, the process exits with the code of the first.
pub proof fn the_first_signal_decides(codes: Seq<i32>)
    requires
        codes.len() > 0,
        forall|i: int| #![trigger codes[i]] 0 <= i < codes.len() ==> codes[i] != 0,
    ensures
        first_signal(codes) == codes[0],
    decreases codes.len(),
{
    let earlier = codes.drop_last();
    if earlier.len() > 0 {
        assert forall|i: int| #![trigger earlier[i]] 0 <= i < earlier.len() implies earlier[i]
            != 0 by {
            assert(earlier[i] == codes[i]);
        }
        the_first_signal_decides(earlier);
    } else {
        assert(first_signal(earlier) == 0);
    }
}

/// A command that fails never exits as if it had succeeded.
pub proof fn failures_do_not_exit_as_success(failure: CliError, style: StylePolicy)
    ensures
        ending(Err(failure), style).exit_code != SUCCESS_EXIT,
        ending(Err(failure), style).diagnostic is Some,
{
}

/// How a process ends. A signal decides the exit code and nothing is said;
/// otherwise a success is silent and exits with 0, and a failure is shown once
/// and exits with the status of its kind, never with 0.
pub proof fn processes_end_as_they_went(
    signalled: i32,
    result: Result<(), CliError>,
    style: StylePolicy,
    outcome: BoundaryOutcome,
)
    requires
        call_ensures(finish_process, (signalled, result, style), outcome),
    ensures
        signalled != 0 ==> outcome@.exit_code == signalled && outcome@.diagnostic is None,
        signalled == 0 && result is Ok ==> outcome@.exit_code == 0 && outcome@.diagnostic is None,
        signalled == 0 ==> (result matches Err(failure) ==> {
            &&& outcome@.diagnostic == Some(output::structured_error(failure@, style))
            &&& outcome@.exit_code == 2 <==> failure@.kind == ErrorKind::ToolExecutionFailed
            &&& outcome@.exit_code == 3 <==> failure@.kind == ErrorKind::NetworkError
                || failure@.kind == ErrorKind::Timeout
            &&& outcome@.exit_code == 4 <==> failure@.kind == ErrorKind::AuthError
            &&& 1 <= outcome@.exit_code <= 4
        }),
{
}

/// The exit codes of the two signals, and which of several signals counts.
pub proof fn signals_have_their_exit_codes(
    interrupted: bool,
    code: i32,
    recorded: i32,
    later: i32,
    kept: (i32, bool),
)
    requires
        call_ensures(signal_exit, (interrupted,), code),
        call_ensures(record_signal, (recorded, later), kept),
    ensures
        interrupted ==> code == 130,
        !interrupted ==> code == 143,
        recorded != 0 ==> kept.0 == recorded && !kept.1,
        recorded == 0 ==> kept.0 == later && kept.1,
{
}

/// A process is a worker exactly if its only argument is the role of a worker;
/// the role with further arguments is an error, and everything else is a
/// command.
pub proof fn workers_have_one_argument(
    arguments: &[Vec<u8>],
    hidden: bool,
    entry: Entry,
)
    requires
        call_ensures(is_hidden_daemon_invocation, (arguments,), hidden),
        call_ensures(process_entry, (arguments,), entry),
    ensures
        entry == Entry::Command <==> !hidden,
        entry == Entry::Worker <==> hidden && arguments@.len() == 1,
        entry == Entry::InvalidWorker <==> hidden && arguments@.len() > 1,
        arguments@.len() == 0 ==> !hidden,
        arguments@.len() > 0 ==> (hidden <==> arguments@[0]@ == vstd::utf8::encode_utf8(
            WORKER_ROLE@,
        )),
{
}

/// A worker that stops is silent and exits with 0; one that fails says in one
/// line what failed and exits with 1.
pub proof fn workers_report_their_failure(
    result: Result<WorkerStop, WorkerBootstrapError>,
    outcome: BoundaryOutcome,
)
    requires
        call_ensures(finish_worker, (result,), outcome),
    ensures
        result is Ok ==> outcome@.exit_code == 0 && outcome@.diagnostic is None,
        result matches Err(failure) ==> outcome@.exit_code == 1 && outcome@.diagnostic == Some(
            "mcp-cli daemon worker failed: "@ + bootstrap::failure_text(failure) + "\n"@,
        ),
{
}

/// A command goes through its stages in one order and ends behind the last one.
/// A stage that fails ends it: what a command reports is redacted, and what was
/// not said by the command itself is reported as it is.
pub proof fn commands_go_through_their_stages(
    stage: Stage,
    event: StageEvent,
    sink: &WriterDiagnosticSink,
    progress: Progress,
)
    requires
        call_ensures(advance, (stage, event, sink), progress),
    ensures
        event matches StageEvent::Parsed(Invocation::Help) ==> progress == Progress::Next(
            Stage::WriteHelp,
        ),
        event matches StageEvent::Parsed(Invocation::Version) ==> progress == Progress::Next(
            Stage::WriteVersion,
        ),
        event matches StageEvent::Parsed(Invocation::Command) ==> progress == Progress::Next(
            Stage::ReadRuntime,
        ),
        event is Done && stage is ReadRuntime ==> progress == Progress::Next(Stage::FindDirectory),
        event is Done && stage is FindDirectory ==> progress == Progress::Next(Stage::Execute),
        event is Done && stage is Execute ==> progress == Progress::Next(Stage::Render),
        event is Done && stage is Render ==> progress == Progress::Next(Stage::WriteOutput),
        event is Done && (stage is WriteOutput || stage is WriteHelp || stage is WriteVersion)
            ==> progress is Succeeded,
        event is Failed ==> progress is Failed,
        event matches StageEvent::Failed(failure) ==> (progress matches Progress::Failed(reported)
            && (stage is Execute ==> reported@ == redact::redacted_failure(
            sink@.secrets,
            failure@,
        )) && (stage is ParseArguments || stage is ReadRuntime || stage is Render ==> reported@
            == failure@) && (stage is WriteHelp || stage is WriteVersion || stage is WriteOutput
            ==> reported@.kind == ErrorKind::NetworkError && reported@.message
            == "Failed to write command output"@) && (stage is FindDirectory ==> reported@.kind
            == ErrorKind::ConfigReadError && reported@.message
            == "Could not determine current directory"@)),
{
}

/// Where a process looks for a home, what it prints for help and version, and
/// when it shows diagnostics.
pub proof fn process_defaults_are_as_documented(
    home_variable: Option<Vec<u8>>,
    profile: Option<Vec<u8>>,
    cwd: Vec<u8>,
    found: Vec<u8>,
    variable: &Option<Vec<u8>>,
    debugging: bool,
    help: String,
    shown: String,
    name: &str,
    version: &str,
    line: String,
    active: usize,
    warning: Option<&'static str>,
)
    requires
        call_ensures(process_home, (home_variable, profile, cwd), found),
        call_ensures(debug_enabled, (variable,), debugging),
        call_ensures(help_output, (help,), shown),
        call_ensures(version_output, (name, version), line),
        call_ensures(leftover_resources, (active,), warning),
    ensures
        home_variable matches Some(path) ==> found@ == path@,
        home_variable is None ==> (profile matches Some(path) ==> found@ == path@),
        home_variable is None && profile is None ==> found@ == cwd@,
        variable is None ==> !debugging,
        variable matches Some(value) ==> (debugging <==> value@.len() > 0),
        shown@.len() > 0 && shown@.last() == '\n',
        help@.len() > 0 && help@.last() == '\n' ==> shown@ == help@,
        help@.len() == 0 || help@.last() != '\n' ==> shown@ == help@.push('\n'),
        line@ == name@ + " "@ + version@ + "\n"@,
        warning is Some <==> active > 0,
{
    reveal_strlit("\n");
    assert(help@ + "\n"@ =~= help@.push('\n'));
}

} // verus!

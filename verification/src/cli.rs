//! The command line: which command the flags ask for, and what each outcome
//! prints and returns.

use vstd::prelude::*;
use vstd::string::*;

verus! {

/// The flags of the command line.
#[derive(Debug, Clone, Copy, PartialEq, Eq, Structural)]
pub struct Flags {
    pub install: bool,
    pub auto: bool,
    pub uninstall: bool,
    pub retarget: bool,
    pub status: bool,
}

#[derive(Debug, Clone, Copy, PartialEq, Eq, Structural)]
pub enum Command {
    Install { auto: bool },
    Uninstall,
    Retarget { auto: bool },
    Status,
    Daemon,
}

/// The command that the flags ask for. Without one of the four command flags
/// the daemon runs; of several the first in the order of `Flags` counts.
pub fn command(flags: Flags) -> (command: Command)
    ensures
        command == (if flags.install {
            Command::Install { auto: flags.auto }
        } else if flags.uninstall {
            Command::Uninstall
        } else if flags.retarget {
            Command::Retarget { auto: flags.auto }
        } else if flags.status {
            Command::Status
        } else {
            Command::Daemon
        }),
{
    if flags.install {
        Command::Install { auto: flags.auto }
    } else if flags.uninstall {
        Command::Uninstall
    } else if flags.retarget {
        Command::Retarget { auto: flags.auto }
    } else if flags.status {
        Command::Status
    } else {
        Command::Daemon
    }
}

/// What can fail.
#[derive(Debug, Clone, Copy, PartialEq, Eq, Structural)]
pub enum Stage {
    ResolveExecutable,
    Install,
    Uninstall,
    Retarget,
    Status,
    ResolveLogDirectory,
    InitLogging,
    LoadConfig,
    BindEndpoint,
    Enforce,
}

impl Stage {
    /// The exit code of a failure at this stage.
    pub open spec fn code(self) -> u8 {
        match self {
            Stage::ResolveExecutable => 2,
            Stage::Install => 1,
            Stage::Uninstall => 1,
            Stage::Retarget => 1,
            Stage::Status => 1,
            Stage::ResolveLogDirectory => 2,
            Stage::InitLogging => 2,
            Stage::LoadConfig => 2,
            Stage::BindEndpoint => 3,
            Stage::Enforce => 4,
        }
    }

    /// What a failure at this stage is called.
    pub open spec fn complaint(self) -> Seq<char> {
        match self {
            Stage::ResolveExecutable => "failed to resolve current executable"@,
            Stage::Install => "install failed"@,
            Stage::Uninstall => "uninstall failed"@,
            Stage::Retarget => "retarget failed"@,
            Stage::Status => "status failed"@,
            Stage::ResolveLogDirectory => "failed to resolve log directory"@,
            Stage::InitLogging => "failed to init logging"@,
            Stage::LoadConfig => "no config loaded; install has not been run"@,
            Stage::BindEndpoint => "failed to bind audio endpoint"@,
            Stage::Enforce => "enforcer exited with error"@,
        }
    }

    /// Whether the log is open by then. A failure before that goes to the
    /// console.
    pub open spec fn is_logged(self) -> bool {
        self == Stage::LoadConfig || self == Stage::BindEndpoint || self == Stage::Enforce
    }
}

/// How a command ends that fails.
#[derive(Debug)]
pub enum Failure {
    /// Print this line and exit with this code.
    Printed { line: String, code: u8 },
    /// Log this message, with the error, and exit with this code.
    Logged { message: String, code: u8 },
}

/// How the command ends when `stage` fails with an error of these words.
pub fn failure(stage: Stage, words: &str) -> (end: Failure)
    ensures
        match end {
            Failure::Printed { line, code } => {
                &&& !stage.is_logged()
                &&& line@ == stage.complaint() + ": "@ + words@
                &&& code == stage.code()
            },
            Failure::Logged { message, code } => {
                &&& stage.is_logged()
                &&& message@ == stage.complaint()
                &&& code == stage.code()
            },
        },
{
    let (complaint, code, logged): (&str, u8, bool) = match stage {
        Stage::ResolveExecutable => ("failed to resolve current executable", 2, false),
        Stage::Install => ("install failed", 1, false),
        Stage::Uninstall => ("uninstall failed", 1, false),
        Stage::Retarget => ("retarget failed", 1, false),
        Stage::Status => ("status failed", 1, false),
        Stage::ResolveLogDirectory => ("failed to resolve log directory", 2, false),
        Stage::InitLogging => ("failed to init logging", 2, false),
        Stage::LoadConfig => ("no config loaded; install has not been run", 2, true),
        Stage::BindEndpoint => ("failed to bind audio endpoint", 3, true),
        Stage::Enforce => ("enforcer exited with error", 4, true),
    };
    if logged {
        Failure::Logged { message: complaint.to_owned(), code }
    } else {
        Failure::Printed { line: complaint.to_owned().concat(": ").concat(words), code }
    }
}

/// No failure is taken for success: every failing stage exits with a code
/// other than zero.
pub proof fn law_failures_exit_nonzero(stage: Stage)
    ensures
        stage.code() != 0,
{
}

/// What the daemon does next.
#[derive(Debug)]
pub enum DaemonMove {
    Go(Stage),
    /// The event loop has ended.
    Done,
    Fail(Failure),
}

/// The stages of the daemon, in order.
pub open spec fn daemon_order() -> Seq<Stage> {
    seq![
        Stage::ResolveLogDirectory,
        Stage::InitLogging,
        Stage::LoadConfig,
        Stage::BindEndpoint,
        Stage::Enforce,
    ]
}

/// What comes after the stage at position `at` of the order.
pub open spec fn is_daemon_move(at: int, outcome: Result<(), String>, next: DaemonMove) -> bool {
    let stage = daemon_order()[at];
    match outcome {
        Ok(_) => if at + 1 < daemon_order().len() {
            next == DaemonMove::Go(daemon_order()[at + 1])
        } else {
            next == DaemonMove::Done
        },
        Err(words) => next matches DaemonMove::Fail(end) && match end {
            Failure::Printed { line, code } => {
                &&& !stage.is_logged()
                &&& line@ == stage.complaint() + ": "@ + words@
                &&& code == stage.code()
            },
            Failure::Logged { message, code } => {
                &&& stage.is_logged()
                &&& message@ == stage.complaint()
                &&& code == stage.code()
            },
        },
    }
}

/// The first stage of the daemon.
pub fn first_daemon_stage() -> (stage: Stage)
    ensures
        stage == daemon_order()[0],
{
    Stage::ResolveLogDirectory
}

/// What the daemon does after `stage` had this outcome, with an error in words.
pub fn run_daemon(stage: Stage, outcome: Result<(), String>) -> (next: DaemonMove)
    requires
        daemon_order().contains(stage),
    ensures
        forall|at: int| 0 <= at < daemon_order().len() && daemon_order()[at] == stage ==> is_daemon_move(at, outcome, next),
{
    match outcome {
        Err(words) => DaemonMove::Fail(failure(stage, words.as_str())),
        Ok(_) => match stage {
            Stage::ResolveLogDirectory => DaemonMove::Go(Stage::InitLogging),
            Stage::InitLogging => DaemonMove::Go(Stage::LoadConfig),
            Stage::LoadConfig => DaemonMove::Go(Stage::BindEndpoint),
            Stage::BindEndpoint => DaemonMove::Go(Stage::Enforce),
            _ => DaemonMove::Done,
        },
    }
}

/// Without a command flag the daemon runs. Of several command flags the first
/// of install, uninstall, retarget and status counts, and `--auto` goes with
/// installing and retargeting as it was given.
pub proof fn law_flags_choose_the_command(flags: Flags, chosen: Command)
    requires
        call_ensures(command, (flags,), chosen),
    ensures
        chosen is Daemon <==> !flags.install && !flags.uninstall && !flags.retarget && !flags.status,
        chosen is Install <==> flags.install,
        chosen is Uninstall <==> flags.uninstall && !flags.install,
        chosen is Retarget <==> flags.retarget && !flags.install && !flags.uninstall,
        chosen is Status <==> flags.status && !flags.install && !flags.uninstall && !flags.retarget,
        chosen matches Command::Install { auto } ==> auto == flags.auto,
        chosen matches Command::Retarget { auto } ==> auto == flags.auto,
{
}

/// A failing command exits with 1, a daemon that cannot start with 2, one that
/// cannot bind with 3 and one that is broken off with 4. What it says names
/// what failed and, on the console, ends in the words of the error.
pub proof fn law_failure_names_the_stage(stage: Stage, words: &str, end: Failure)
    requires
        call_ensures(failure, (stage, words), end),
    ensures
        match end {
            Failure::Printed { line, code } => {
                &&& match stage {
                    Stage::Install => line@ == "install failed"@ + ": "@ + words@ && code == 1,
                    Stage::Uninstall => line@ == "uninstall failed"@ + ": "@ + words@ && code == 1,
                    Stage::Retarget => line@ == "retarget failed"@ + ": "@ + words@ && code == 1,
                    Stage::Status => line@ == "status failed"@ + ": "@ + words@ && code == 1,
                    Stage::ResolveExecutable => line@ == "failed to resolve current executable"@ + ": "@ + words@ && code
                        == 2,
                    Stage::ResolveLogDirectory => line@ == "failed to resolve log directory"@ + ": "@ + words@ && code
                        == 2,
                    Stage::InitLogging => line@ == "failed to init logging"@ + ": "@ + words@ && code == 2,
                    _ => false,
                }
            },
            Failure::Logged { message, code } => match stage {
                Stage::LoadConfig => message@ == "no config loaded; install has not been run"@ && code == 2,
                Stage::BindEndpoint => message@ == "failed to bind audio endpoint"@ && code == 3,
                Stage::Enforce => message@ == "enforcer exited with error"@ && code == 4,
                _ => false,
            },
        },
{
}

proof fn lemma_daemon_move(stage: Stage, outcome: Result<(), String>, next: DaemonMove, at: int)
    requires
        call_ensures(run_daemon, (stage, outcome), next),
        0 <= at < 5,
        daemon_order()[at] == stage,
    ensures
        is_daemon_move(at, outcome, next),
{
}

/// The stage is one that the daemon goes through.
proof fn lemma_daemon_position(stage: Stage) -> (at: int)
    requires
        stage == Stage::ResolveLogDirectory || stage == Stage::InitLogging || stage == Stage::LoadConfig || stage
            == Stage::BindEndpoint || stage == Stage::Enforce,
    ensures
        0 <= at < 5,
        daemon_order()[at] == stage,
{
    match stage {
        Stage::ResolveLogDirectory => 0,
        Stage::InitLogging => 1,
        Stage::LoadConfig => 2,
        Stage::BindEndpoint => 3,
        _ => 4,
    }
}

/// A stage of the daemon that fails ends the daemon, with the exit code and
/// the words of that stage: no later stage is entered.
pub proof fn law_failed_stage_ends_the_daemon(stage: Stage, words: String, next: DaemonMove)
    requires
        stage == Stage::ResolveLogDirectory || stage == Stage::InitLogging || stage == Stage::LoadConfig || stage
            == Stage::BindEndpoint || stage == Stage::Enforce,
        call_ensures(run_daemon, (stage, Err::<(), String>(words)), next),
    ensures
        next matches DaemonMove::Fail(end) && match end {
            Failure::Printed { line, code } => {
                &&& code == 2
                &&& stage == Stage::ResolveLogDirectory && line@ == "failed to resolve log directory"@ + ": "@ + words@
                    || stage == Stage::InitLogging && line@ == "failed to init logging"@ + ": "@ + words@
            },
            Failure::Logged { message, code } => {
                ||| stage == Stage::LoadConfig && code == 2 && message@ == "no config loaded; install has not been run"@
                ||| stage == Stage::BindEndpoint && code == 3 && message@ == "failed to bind audio endpoint"@
                ||| stage == Stage::Enforce && code == 4 && message@ == "enforcer exited with error"@
            },
        },
{
    let at = lemma_daemon_position(stage);
    lemma_daemon_move(stage, Err::<(), String>(words), next, at);
}

/// A stage that succeeds leads to the next one: log directory, log, config,
/// endpoint, event loop; and the daemon is done once the event loop has ended.
pub proof fn law_daemon_goes_on_in_order(stage: Stage, next: DaemonMove)
    requires
        stage == Stage::ResolveLogDirectory || stage == Stage::InitLogging || stage == Stage::LoadConfig || stage
            == Stage::BindEndpoint || stage == Stage::Enforce,
        call_ensures(run_daemon, (stage, Ok::<(), String>(())), next),
    ensures
        stage == Stage::ResolveLogDirectory ==> next == DaemonMove::Go(Stage::InitLogging),
        stage == Stage::InitLogging ==> next == DaemonMove::Go(Stage::LoadConfig),
        stage == Stage::LoadConfig ==> next == DaemonMove::Go(Stage::BindEndpoint),
        stage == Stage::BindEndpoint ==> next == DaemonMove::Go(Stage::Enforce),
        stage == Stage::Enforce ==> next == DaemonMove::Done,
{
    let at = lemma_daemon_position(stage);
    lemma_daemon_move(stage, Ok::<(), String>(()), next, at);
}

/// The daemon is done only after each of its five stages was entered in order
/// and succeeded.
pub proof fn law_daemon_is_done_after_every_stage(
    stages: Seq<Stage>,
    outcomes: Seq<Result<(), String>>,
    moves: Seq<DaemonMove>,
)
    requires
        stages.len() > 0,
        outcomes.len() == stages.len(),
        moves.len() == stages.len(),
        call_ensures(first_daemon_stage, (), stages[0]),
        forall|i: int| 0 <= i < stages.len() ==> call_ensures(run_daemon, (stages[i], outcomes[i]), #[trigger] moves[i]),
        forall|i: int| 0 < i < stages.len() ==> moves[i - 1] == DaemonMove::Go(#[trigger] stages[i]),
        moves.last() is Done,
    ensures
        stages == seq![
            Stage::ResolveLogDirectory,
            Stage::InitLogging,
            Stage::LoadConfig,
            Stage::BindEndpoint,
            Stage::Enforce,
        ],
        forall|i: int| 0 <= i < outcomes.len() ==> #[trigger] outcomes[i] is Ok,
{
    assert(stages[0] == Stage::ResolveLogDirectory);
    lemma_daemon_chain(stages, outcomes, moves, 0);
    lemma_daemon_chain(stages, outcomes, moves, 1);
    lemma_daemon_chain(stages, outcomes, moves, 2);
    lemma_daemon_chain(stages, outcomes, moves, 3);
    lemma_daemon_chain(stages, outcomes, moves, 4);
    assert(stages =~= seq![
        Stage::ResolveLogDirectory,
        Stage::InitLogging,
        Stage::LoadConfig,
        Stage::BindEndpoint,
        Stage::Enforce,
    ]);
}

proof fn lemma_daemon_chain(
    stages: Seq<Stage>,
    outcomes: Seq<Result<(), String>>,
    moves: Seq<DaemonMove>,
    at: int,
)
    requires
        0 <= at < 5,
        at < stages.len(),
        outcomes.len() == stages.len(),
        moves.len() == stages.len(),
        daemon_order()[at] == stages[at],
        forall|i: int| 0 <= i < stages.len() ==> call_ensures(run_daemon, (stages[i], outcomes[i]), #[trigger] moves[i]),
        forall|i: int| 0 < i < stages.len() ==> moves[i - 1] == DaemonMove::Go(#[trigger] stages[i]),
        moves.last() is Done,
    ensures
        outcomes[at] is Ok,
        at < 4 ==> at + 1 < stages.len() && daemon_order()[at + 1] == stages[at + 1],
        at == 4 ==> stages.len() == 5,
{
    assert(call_ensures(run_daemon, (stages[at], outcomes[at]), moves[at]));
    lemma_daemon_move(stages[at], outcomes[at], moves[at], at);
    if at + 1 < stages.len() {
        assert(moves[at] == DaemonMove::Go(stages[at + 1]));
    } else {
        assert(moves.last() == moves[at]);
    }
}

} // verus!

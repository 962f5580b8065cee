//! Running the commands of a script, one after the other.
//!
//! The library does not start processes. It says which command is next, takes
//! what the shell made of it, and keeps one result per command. Whoever drives
//! an [`Execution`] runs each command it hands out and reports back.

use vstd::prelude::*;

use crate::text::{same_text, texts};

verus! {

/// The text that `bytes` decode to when every invalid UTF-8 sequence is
/// replaced by U+FFFD. This is the string that `String::from_utf8_lossy`
/// returns for them.
pub uninterp spec fn lossy_utf8(bytes: Seq<u8>) -> Seq<char>;

/// The interpreter that a command is handed to, as its one script argument.
#[derive(Debug, Clone, Copy, PartialEq, Eq, Structural)]
pub enum Shell {
    /// A POSIX shell: `sh -c <command>`.
    Posix,
    /// The command interpreter of Windows: `cmd /C <command>`.
    Windows,
}

/// The name by which a host says that it runs Windows.
pub open spec fn windows() -> Seq<char> {
    seq!['w', 'i', 'n', 'd', 'o', 'w', 's']
}

/// The shell of a host: the command interpreter on Windows, a POSIX shell
/// everywhere else.
pub open spec fn shell_for(host_os: Seq<char>) -> Shell {
    if host_os == windows() {
        Shell::Windows
    } else {
        Shell::Posix
    }
}

/// The program that starts `shell`.
pub open spec fn program_of(shell: Shell) -> Seq<char> {
    match shell {
        Shell::Posix => seq!['s', 'h'],
        Shell::Windows => seq!['c', 'm', 'd'],
    }
}

/// The argument that makes `shell` run the argument after it as a script.
pub open spec fn flag_of(shell: Shell) -> Seq<char> {
    match shell {
        Shell::Posix => seq!['-', 'c'],
        Shell::Windows => seq!['/', 'C'],
    }
}

impl Shell {
    /// The shell to use on the host `host_os`.
    pub fn for_host(host_os: &str) -> (shell: Shell)
        ensures
            shell == shell_for(host_os@),
    {
        proof {
            reveal_strlit("windows");
            assert("windows"@ =~= windows());
        }
        if same_text(host_os, "windows") {
            Shell::Windows
        } else {
            Shell::Posix
        }
    }

    /// The program to start.
    pub fn program(&self) -> (name: &'static str)
        ensures
            name@ == program_of(*self),
    {
        proof {
            reveal_strlit("sh");
            reveal_strlit("cmd");
        }
        match self {
            Shell::Posix => {
                assert("sh"@ =~= program_of(Shell::Posix));
                "sh"
            },
            Shell::Windows => {
                assert("cmd"@ =~= program_of(Shell::Windows));
                "cmd"
            },
        }
    }

    /// The argument to pass before the command.
    pub fn flag(&self) -> (flag: &'static str)
        ensures
            flag@ == flag_of(*self),
    {
        proof {
            reveal_strlit("-c");
            reveal_strlit("/C");
        }
        match self {
            Shell::Posix => {
                assert("-c"@ =~= flag_of(Shell::Posix));
                "-c"
            },
            Shell::Windows => {
                assert("/C"@ =~= flag_of(Shell::Windows));
                "/C"
            },
        }
    }
}

/// What the shell made of one command.
#[derive(Debug, PartialEq, Eq)]
pub enum ShellOutcome {
    /// The process ran and ended, with or without success.
    Exited { success: bool, stdout: Vec<u8> },
    /// The process could not be started.
    NotStarted { error: String },
}

/// A `ShellOutcome` over views.
pub enum ShellOutcomeView {
    Exited { success: bool, stdout: Seq<u8> },
    NotStarted { error: Seq<char> },
}

impl View for ShellOutcome {
    type V = ShellOutcomeView;

    open spec fn view(&self) -> ShellOutcomeView {
        match self {
            ShellOutcome::Exited { success, stdout } => ShellOutcomeView::Exited {
                success: *success,
                stdout: stdout@,
            },
            ShellOutcome::NotStarted { error } => ShellOutcomeView::NotStarted { error: error@ },
        }
    }
}

/// How one command ended.
#[derive(Debug, PartialEq, Eq)]
pub enum CommandResult {
    /// The command ran with success; `output` is what it wrote to standard
    /// output.
    Succeeded { output: String },
    /// The command ran and reported failure.
    CommandFailed { command: String },
    /// The command could not be started; `error` is the system's reason.
    SpawnFailed { command: String, error: String },
}

/// A `CommandResult` over views.
pub enum CommandResultView {
    Succeeded { output: Seq<char> },
    CommandFailed { command: Seq<char> },
    SpawnFailed { command: Seq<char>, error: Seq<char> },
}

impl View for CommandResult {
    type V = CommandResultView;

    open spec fn view(&self) -> CommandResultView {
        match self {
            CommandResult::Succeeded { output } => CommandResultView::Succeeded {
                output: output@,
            },
            CommandResult::CommandFailed { command } => CommandResultView::CommandFailed {
                command: command@,
            },
            CommandResult::SpawnFailed { command, error } => CommandResultView::SpawnFailed {
                command: command@,
                error: error@,
            },
        }
    }
}

/// The views of a sequence of results, in order.
pub open spec fn result_views(results: Seq<CommandResult>) -> Seq<CommandResultView> {
    Seq::new(results.len(), |i: int| results[i]@)
}

/// The result of `command`, given what the shell made of it. Success carries
/// the decoded output; both failures carry the command.
pub open spec fn result_of(command: Seq<char>, outcome: ShellOutcomeView) -> CommandResultView {
    match outcome {
        ShellOutcomeView::Exited { success, stdout } => if success {
            CommandResultView::Succeeded { output: lossy_utf8(stdout) }
        } else {
            CommandResultView::CommandFailed { command }
        },
        ShellOutcomeView::NotStarted { error } => CommandResultView::SpawnFailed {
            command,
            error,
        },
    }
}

/// Whether `result` can be the result of `command`: a failure names the
/// command that failed.
pub open spec fn is_result_for(result: CommandResultView, command: Seq<char>) -> bool {
    match result {
        CommandResultView::Succeeded { .. } => true,
        CommandResultView::CommandFailed { command: failed } => failed == command,
        CommandResultView::SpawnFailed { command: failed, .. } => failed == command,
    }
}

/// Decodes `bytes` as UTF-8, with U+FFFD in place of what is not valid.
/// Calls `String::from_utf8_lossy`; the text is the one that `lossy_utf8`
/// names.
#[verifier::external_body]
fn decode_lossy(bytes: &[u8]) -> (text: String)
    ensures
        text@ == lossy_utf8(bytes@),
{
    String::from_utf8_lossy(bytes).into_owned()
}

impl CommandResult {
    /// The result of `command`, given what the shell made of it.
    pub fn of(command: &str, outcome: ShellOutcome) -> (result: CommandResult)
        ensures
            result@ == result_of(command@, outcome@),
    {
        match outcome {
            ShellOutcome::Exited { success, stdout } => {
                if success {
                    CommandResult::Succeeded { output: decode_lossy(stdout.as_slice()) }
                } else {
                    CommandResult::CommandFailed { command: command.to_owned() }
                }
            },
            ShellOutcome::NotStarted { error } => CommandResult::SpawnFailed {
                command: command.to_owned(),
                error,
            },
        }
    }
}

/// A run over the commands of a script: the results so far, one for each
/// command that was attempted.
pub struct Execution<'a> {
    commands: &'a Vec<String>,
    results: Vec<CommandResult>,
}

/// An `Execution` over views.
pub struct ExecutionView {
    pub commands: Seq<Seq<char>>,
    pub results: Seq<CommandResultView>,
}

/// A run of `commands` before the first of them.
pub open spec fn started(commands: Seq<Seq<char>>) -> ExecutionView {
    ExecutionView { commands, results: Seq::empty() }
}

/// The command to attempt next: the first one without a result, if any.
pub open spec fn pending(run: ExecutionView) -> Option<Seq<char>> {
    if run.results.len() < run.commands.len() {
        Some(run.commands[run.results.len() as int])
    } else {
        None
    }
}

/// The run after `outcome` is reported for the pending command. Whatever the
/// outcome, the run moves on to the next command. With no command pending
/// the run stays as it is.
pub open spec fn recorded(run: ExecutionView, outcome: ShellOutcomeView) -> ExecutionView {
    match pending(run) {
        Some(command) => ExecutionView {
            results: run.results.push(result_of(command, outcome)),
            ..run
        },
        None => run,
    }
}

/// The run after `outcomes` are reported one after the other.
pub open spec fn recorded_all(run: ExecutionView, outcomes: Seq<ShellOutcomeView>) -> ExecutionView
    decreases outcomes.len(),
{
    if outcomes.len() == 0 {
        run
    } else {
        recorded(recorded_all(run, outcomes.drop_last()), outcomes.last())
    }
}

/// Whether a run is consistent: it has no more results than commands, and
/// each result belongs to the command at its place.
pub open spec fn well_formed(run: ExecutionView) -> bool {
    &&& run.results.len() <= run.commands.len()
    &&& forall|i: int|
        0 <= i < run.results.len() ==> is_result_for(#[trigger] run.results[i], run.commands[i])
}

/// The results of `commands` when the shell made `outcomes` of them, one for
/// one.
pub open spec fn results_of(commands: Seq<Seq<char>>, outcomes: Seq<ShellOutcomeView>) -> Seq<
    CommandResultView,
> {
    Seq::new(outcomes.len(), |i: int| result_of(commands[i], outcomes[i]))
}

/// Every run that reports lead to is well formed, however many reports there
/// are and whatever they say.
pub proof fn lemma_runs_are_well_formed(commands: Seq<Seq<char>>, outcomes: Seq<ShellOutcomeView>)
    ensures
        well_formed(recorded_all(started(commands), outcomes)),
        recorded_all(started(commands), outcomes).commands == commands,
    decreases outcomes.len(),
{
    if outcomes.len() > 0 {
        lemma_runs_are_well_formed(commands, outcomes.drop_last());
    }
}

/// While there are no more reports than commands, each report is kept as the
/// result of the command at its place.
pub proof fn lemma_recorded_all_results(
    commands: Seq<Seq<char>>,
    outcomes: Seq<ShellOutcomeView>,
)
    requires
        outcomes.len() <= commands.len(),
    ensures
        recorded_all(started(commands), outcomes).commands == commands,
        recorded_all(started(commands), outcomes).results == results_of(commands, outcomes),
    decreases outcomes.len(),
{
    if outcomes.len() > 0 {
        lemma_recorded_all_results(commands, outcomes.drop_last());
    }
    assert(recorded_all(started(commands), outcomes).results =~= results_of(commands, outcomes));
}

/// Every command is attempted once and in its turn, whatever became of the
/// commands before it. While the outcomes are reported one by one, the
/// command pending after `n` reports is the one at index `n`; once each
/// command has its outcome none is pending, and there is one result for each
/// command, in the order of the commands.
pub proof fn lemma_every_command_is_attempted(
    commands: Seq<Seq<char>>,
    outcomes: Seq<ShellOutcomeView>,
)
    requires
        outcomes.len() == commands.len(),
    ensures
        forall|n: int|
            0 <= n < commands.len() ==> pending(
                recorded_all(started(commands), #[trigger] outcomes.take(n)),
            ) == Some(commands[n]),
        pending(recorded_all(started(commands), outcomes)) is None,
        recorded_all(started(commands), outcomes).results.len() == commands.len(),
        recorded_all(started(commands), outcomes).results == results_of(commands, outcomes),
{
    lemma_recorded_all_results(commands, outcomes);
    assert forall|n: int| 0 <= n < commands.len() implies pending(
        recorded_all(started(commands), #[trigger] outcomes.take(n)),
    ) == Some(commands[n]) by {
        lemma_recorded_all_results(commands, outcomes.take(n));
    }
}

impl<'a> View for Execution<'a> {
    type V = ExecutionView;

    closed spec fn view(&self) -> ExecutionView {
        ExecutionView { commands: texts(self.commands@), results: result_views(self.results@) }
    }
}

impl<'a> Execution<'a> {
    #[verifier::type_invariant]
    spec fn consistent(&self) -> bool {
        well_formed(self@)
    }

    /// A run of `commands` that has attempted none of them yet.
    pub fn new(commands: &'a Vec<String>) -> (run: Execution<'a>)
        ensures
            run@ == started(texts(commands@)),
    {
        let run = Execution { commands, results: Vec::new() };
        assert(result_views(run.results@) =~= Seq::empty());
        run
    }

    /// The command to run next, or `None` when every command has a result.
    pub fn next_command(&self) -> (command: Option<&'a String>)
        ensures
            well_formed(self@),
            match command {
                Some(text) => pending(self@) == Some(text@),
                None => pending(self@) is None,
            },
    {
        proof {
            use_type_invariant(self);
        }
        if self.results.len() < self.commands.len() {
            Some(&self.commands[self.results.len()])
        } else {
            None
        }
    }

    /// Reports what the shell made of the pending command. The run keeps the
    /// result and moves on, whether the command succeeded or not.
    pub fn record(self, outcome: ShellOutcome) -> (next: Execution<'a>)
        ensures
            next@ == recorded(self@, outcome@),
    {
        proof {
            use_type_invariant(&self);
        }
        let Execution { commands, results } = self;
        let mut results = results;
        if results.len() < commands.len() {
            let result = CommandResult::of(commands[results.len()].as_str(), outcome);
            assert(result_views(results@.push(result)) =~= result_views(results@).push(result@));
            results.push(result);
        }
        Execution { commands, results }
    }

    /// The results so far, in the order of the commands.
    pub fn results(&self) -> (results: &Vec<CommandResult>)
        ensures
            well_formed(self@),
            result_views(results@) == self@.results,
    {
        proof {
            use_type_invariant(self);
        }
        &self.results
    }

    /// Ends the run and hands out its results.
    pub fn into_results(self) -> (results: Vec<CommandResult>)
        ensures
            well_formed(self@),
            result_views(results@) == self@.results,
    {
        proof {
            use_type_invariant(&self);
        }
        self.results
    }
}

} // verus!

use grun::executor::{CommandResult, Execution, Shell, ShellOutcome};
use grun::script::Script;

fn strings(texts: &[&str]) -> Vec<String> {
    texts.iter().map(|text| text.to_string()).collect()
}

fn ok(stdout: &str) -> ShellOutcome {
    ShellOutcome::Exited { success: true, stdout: stdout.as_bytes().to_vec() }
}

fn failed() -> ShellOutcome {
    ShellOutcome::Exited { success: false, stdout: b"ignored".to_vec() }
}

#[test]
fn failure_does_not_stop_the_run() {
    let commands = strings(&["c1", "c2", "c3"]);
    let mut run = Execution::new(&commands);
    let mut attempted = Vec::new();

    let first = run.next_command().cloned();
    attempted.push(first.clone());
    run = run.record(ok("one\n"));
    let second = run.next_command().cloned();
    attempted.push(second.clone());
    run = run.record(failed());
    let third = run.next_command().cloned();
    attempted.push(third.clone());
    run = run.record(ok("three\n"));

    assert_eq!(
        attempted,
        vec![Some("c1".to_string()), Some("c2".to_string()), Some("c3".to_string())]
    );
    assert_eq!(run.next_command(), None);
    assert_eq!(
        run.into_results(),
        vec![
            CommandResult::Succeeded { output: "one\n".to_string() },
            CommandResult::CommandFailed { command: "c2".to_string() },
            CommandResult::Succeeded { output: "three\n".to_string() },
        ]
    );
}

#[test]
fn spawn_failure_does_not_stop_the_run() {
    let commands = strings(&["c1", "c2"]);
    let mut run = Execution::new(&commands);
    run = run.record(ShellOutcome::NotStarted { error: "No such file or directory".to_string() });
    assert_eq!(run.next_command(), Some(&"c2".to_string()));
    run = run.record(ok(""));
    assert_eq!(
        run.results(),
        &vec![
            CommandResult::SpawnFailed {
                command: "c1".to_string(),
                error: "No such file or directory".to_string(),
            },
            CommandResult::Succeeded { output: String::new() },
        ]
    );
}

#[test]
fn every_command_gets_one_result_whatever_the_outcomes() {
    let commands = strings(&["a", "b", "c", "d"]);
    for pattern in 0..81u32 {
        let mut run = Execution::new(&commands);
        let mut seen = Vec::new();
        let mut digits = pattern;
        while let Some(command) = run.next_command() {
            seen.push(command.clone());
            let outcome = match digits % 3 {
                0 => ok("out"),
                1 => failed(),
                _ => ShellOutcome::NotStarted { error: "denied".to_string() },
            };
            digits /= 3;
            run = run.record(outcome);
        }
        assert_eq!(seen, commands);
        let results = run.into_results();
        assert_eq!(results.len(), commands.len());
        let mut digits = pattern;
        for (command, result) in commands.iter().zip(results.iter()) {
            let expected = match digits % 3 {
                0 => CommandResult::Succeeded { output: "out".to_string() },
                1 => CommandResult::CommandFailed { command: command.clone() },
                _ => CommandResult::SpawnFailed {
                    command: command.clone(),
                    error: "denied".to_string(),
                },
            };
            digits /= 3;
            assert_eq!(result, &expected);
        }
    }
}

#[test]
fn run_without_commands_is_over_at_once() {
    let commands: Vec<String> = Vec::new();
    let run = Execution::new(&commands);
    assert_eq!(run.next_command(), None);
    assert!(run.results().is_empty());
}

#[test]
fn report_with_no_command_pending_is_ignored() {
    let commands = strings(&["only"]);
    let mut run = Execution::new(&commands);
    run = run.record(failed());
    run = run.record(ok("late"));
    run = run.record(ShellOutcome::NotStarted { error: "late".to_string() });
    assert_eq!(run.next_command(), None);
    assert_eq!(
        run.into_results(),
        vec![CommandResult::CommandFailed { command: "only".to_string() }]
    );
}

#[test]
fn pending_command_stays_until_its_outcome_is_reported() {
    let commands = strings(&["a", "b"]);
    let run = Execution::new(&commands);
    assert_eq!(run.next_command(), Some(&"a".to_string()));
    assert_eq!(run.next_command(), Some(&"a".to_string()));
    assert!(run.results().is_empty());
}

#[test]
fn execute_runs_the_commands_of_the_script_in_order() {
    let script = Script::new("@linux\n-first\n--\nsecond\nline\n--\n", "linux").unwrap();
    let mut run = script.execute();
    assert_eq!(run.next_command(), Some(&"first".to_string()));
    run = run.record(failed());
    assert_eq!(run.next_command(), Some(&"second\nline".to_string()));
    run = run.record(ok("done"));
    assert_eq!(run.next_command(), None);
    assert_eq!(
        run.into_results(),
        vec![
            CommandResult::CommandFailed { command: "first".to_string() },
            CommandResult::Succeeded { output: "done".to_string() },
        ]
    );
}

#[test]
fn success_carries_the_decoded_output() {
    assert_eq!(
        CommandResult::of("echo hi", ok("hi\n")),
        CommandResult::Succeeded { output: "hi\n".to_string() }
    );
    assert_eq!(
        CommandResult::of("printf", ok("grüße 日本語")),
        CommandResult::Succeeded { output: "grüße 日本語".to_string() }
    );
}

#[test]
fn invalid_output_is_decoded_with_replacement_characters() {
    let outcome = ShellOutcome::Exited { success: true, stdout: vec![b'h', b'i', 0xff, b'!'] };
    assert_eq!(
        CommandResult::of("cat blob", outcome),
        CommandResult::Succeeded { output: "hi\u{fffd}!".to_string() }
    );
    let truncated = ShellOutcome::Exited { success: true, stdout: vec![0xe6, 0x97] };
    assert_eq!(
        CommandResult::of("cat blob", truncated),
        CommandResult::Succeeded { output: "\u{fffd}".to_string() }
    );
}

#[test]
fn failure_carries_the_command() {
    assert_eq!(
        CommandResult::of("exit 3", failed()),
        CommandResult::CommandFailed { command: "exit 3".to_string() }
    );
}

#[test]
fn spawn_failure_carries_the_command_and_the_error() {
    let outcome = ShellOutcome::NotStarted { error: "permission denied".to_string() };
    assert_eq!(
        CommandResult::of("ls", outcome),
        CommandResult::SpawnFailed {
            command: "ls".to_string(),
            error: "permission denied".to_string(),
        }
    );
}

#[test]
fn windows_uses_its_command_interpreter() {
    let shell = Shell::for_host("windows");
    assert_eq!(shell, Shell::Windows);
    assert_eq!(shell.program(), "cmd");
    assert_eq!(shell.flag(), "/C");
}

#[test]
fn other_hosts_use_a_posix_shell() {
    for host_os in ["linux", "macos", "freebsd", "Windows", ""] {
        let shell = Shell::for_host(host_os);
        assert_eq!(shell, Shell::Posix);
        assert_eq!(shell.program(), "sh");
        assert_eq!(shell.flag(), "-c");
    }
}

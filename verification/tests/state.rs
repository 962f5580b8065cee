use grun::error::ScriptError;
use grun::line::LineType;
use grun::parser::ParseState;

fn strings(texts: &[&str]) -> Vec<String> {
    texts.iter().map(|text| text.to_string()).collect()
}

fn in_host_section() -> ParseState {
    let mut state = ParseState::new("linux");
    state.step(LineType::OsDirective("linux".to_string()));
    state
}

#[test]
fn new_state_knows_nothing() {
    let state = ParseState::new("linux");
    assert_eq!(state.host_os, "linux");
    assert!(!state.is_valid_os);
    assert!(!state.is_current_os);
    assert!(!state.multi_command_entered);
    assert!(state.multi_command_buffer.is_empty());
    assert!(state.commands.is_empty());
}

#[test]
fn directive_for_the_host_makes_the_section_current_and_the_script_valid() {
    let state = in_host_section();
    assert!(state.is_current_os);
    assert!(state.is_valid_os);
}

#[test]
fn directive_for_another_system_ends_the_section_but_not_validity() {
    let mut state = in_host_section();
    state.step(LineType::OsDirective("macos".to_string()));
    assert!(!state.is_current_os);
    assert!(state.is_valid_os);
    state.step(LineType::OsDirective("linux".to_string()));
    assert!(state.is_current_os);
    assert!(state.is_valid_os);
}

#[test]
fn directive_for_another_system_alone_leaves_the_script_invalid() {
    let mut state = ParseState::new("linux");
    state.step(LineType::OsDirective("windows".to_string()));
    assert!(!state.is_current_os);
    assert!(!state.is_valid_os);
    assert_eq!(state.finish(), Err(ScriptError::NoMatchingOsSection));
}

#[test]
fn comment_changes_nothing() {
    let mut state = in_host_section();
    state.step(LineType::MultiCommandDelimiter);
    state.step(LineType::MultiCommandLine("a".to_string()));
    state.step(LineType::Comment);
    assert!(state.is_current_os);
    assert!(state.multi_command_entered);
    assert_eq!(state.multi_command_buffer, strings(&["a"]));
    assert!(state.commands.is_empty());
}

#[test]
fn single_command_is_resolved_in_the_host_section_only() {
    let mut state = ParseState::new("linux");
    state.step(LineType::SingleCommand("early".to_string()));
    assert!(state.commands.is_empty());
    state.step(LineType::OsDirective("linux".to_string()));
    state.step(LineType::SingleCommand("a".to_string()));
    state.step(LineType::OsDirective("macos".to_string()));
    state.step(LineType::SingleCommand("b".to_string()));
    assert_eq!(state.commands, strings(&["a"]));
}

#[test]
fn delimiter_opens_and_closes_a_block() {
    let mut state = in_host_section();
    state.step(LineType::MultiCommandDelimiter);
    assert!(state.multi_command_entered);
    assert!(state.multi_command_buffer.is_empty());
    state.step(LineType::MultiCommandLine("echo hi".to_string()));
    state.step(LineType::MultiCommandLine("echo bye".to_string()));
    assert_eq!(state.multi_command_buffer, strings(&["echo hi", "echo bye"]));
    assert!(state.commands.is_empty());
    state.step(LineType::MultiCommandDelimiter);
    assert!(!state.multi_command_entered);
    assert!(state.multi_command_buffer.is_empty());
    assert_eq!(state.commands, strings(&["echo hi\necho bye"]));
}

#[test]
fn delimiter_outside_the_host_section_is_ignored() {
    let mut state = ParseState::new("linux");
    state.step(LineType::MultiCommandDelimiter);
    assert!(!state.multi_command_entered);
    state.step(LineType::OsDirective("linux".to_string()));
    state.step(LineType::MultiCommandDelimiter);
    state.step(LineType::OsDirective("macos".to_string()));
    state.step(LineType::MultiCommandDelimiter);
    assert!(state.multi_command_entered);
    assert!(state.commands.is_empty());
}

#[test]
fn content_is_gathered_only_in_an_open_block_of_the_host_section() {
    let mut state = in_host_section();
    state.step(LineType::MultiCommandLine("no block".to_string()));
    assert!(state.multi_command_buffer.is_empty());
    state.step(LineType::MultiCommandDelimiter);
    state.step(LineType::MultiCommandLine("kept".to_string()));
    state.step(LineType::OsDirective("macos".to_string()));
    state.step(LineType::MultiCommandLine("other system".to_string()));
    assert_eq!(state.multi_command_buffer, strings(&["kept"]));
}

#[test]
fn opening_a_block_clears_the_buffer() {
    let mut state = ParseState {
        host_os: "linux".to_string(),
        is_valid_os: true,
        is_current_os: true,
        multi_command_entered: false,
        multi_command_buffer: strings(&["stale"]),
        commands: strings(&["a"]),
    };
    state.step(LineType::MultiCommandDelimiter);
    assert!(state.multi_command_entered);
    assert!(state.multi_command_buffer.is_empty());
    assert_eq!(state.commands, strings(&["a"]));
}

#[test]
fn finish_gives_the_commands_and_drops_an_open_block() {
    let mut state = in_host_section();
    state.step(LineType::SingleCommand("a".to_string()));
    state.step(LineType::MultiCommandDelimiter);
    state.step(LineType::MultiCommandLine("never closed".to_string()));
    assert_eq!(state.finish(), Ok(strings(&["a"])));
}

#[test]
fn finish_fails_without_a_section_for_the_host() {
    assert_eq!(ParseState::new("linux").finish(), Err(ScriptError::NoMatchingOsSection));
}

//! Tests for the syntax checker and the line-oriented state machine.

use dialogue_rs::script::Script;
use dialogue_rs::state_machine::{StateMachine, build_marker_map};
use dialogue_rs::syntax::options::{RuleSeverity, SyntaxCheckerOptions};
use dialogue_rs::syntax::{ValidationError, check_syntax, check_syntax_with_options};

fn parse(text: &str) -> Script {
    Script::parse(text).expect("a script can be parsed")
}

#[test]
fn test_valid_script_passes_checks() {
    let script = parse(
        "// intro\n%START%\nZELDA |SAY| \"Hey there!\"\n    |CHOICE| \"Hi\"\n        |GOTO| START\n%END%\n",
    );
    check_syntax(&script).expect("syntax of script is correct");
}

#[test]
fn test_empty_script_is_invalid() {
    let script = Script::empty();
    assert_eq!(check_syntax(&script).unwrap_err(), ValidationError::EmptyScript);
}

#[test]
fn test_script_must_open_with_start_marker() {
    let script = parse("|SAY| hi\n%END%\n");
    assert_eq!(
        check_syntax(&script).unwrap_err(),
        ValidationError::MissingStartMarker
    );
    let script = parse("%OTHER%\n|SAY| hi\n%END%\n");
    assert_eq!(
        check_syntax(&script).unwrap_err(),
        ValidationError::MarkerBeforeStart
    );
}

#[test]
fn test_marker_after_start_is_invalid() {
    let script = parse("%START%\n%END%\n");
    assert_eq!(
        check_syntax(&script).unwrap_err(),
        ValidationError::MarkerAfterStart
    );
}

#[test]
fn test_duplicate_marker_is_invalid() {
    let script = parse("%START%\n|SAY| one\n%HERE%\n|SAY| two\n%HERE%\n|SAY| three\n%END%\n");
    assert_eq!(
        check_syntax(&script).unwrap_err(),
        ValidationError::DuplicateMarker
    );
}

#[test]
fn test_say_needs_suffix() {
    let script = parse("%START%\n|SAY|\n%END%\n");
    assert_eq!(check_syntax(&script).unwrap_err(), ValidationError::MissingSuffix);
}

#[test]
fn test_choice_forbids_prefix() {
    let script = parse("%START%\nA |CHOICE| pick\n%END%\n");
    assert_eq!(
        check_syntax(&script).unwrap_err(),
        ValidationError::ForbiddenPrefix
    );
}

#[test]
fn test_goto_shape_is_checked() {
    let script = parse("%START%\n|GOTO| not-a-marker\n%END%\n");
    assert_eq!(
        check_syntax(&script).unwrap_err(),
        ValidationError::InvalidMarkerName
    );
    let script = parse("%START%\n|GOTO| START\n    |SAY| hidden\n%END%\n");
    assert_eq!(
        check_syntax(&script).unwrap_err(),
        ValidationError::UnreachableAfterJump
    );
}

#[test]
fn test_unknown_commands_follow_severity() {
    let script = parse("%START%\n|FROBNICATE| now\n%END%\n");
    assert_eq!(
        check_syntax(&script).unwrap_err(),
        ValidationError::UnknownCommand
    );
    let lenient = SyntaxCheckerOptions::new(RuleSeverity::Allow, RuleSeverity::Allow);
    check_syntax_with_options(&script, &lenient).expect("unknown commands allowed");
    let warning = SyntaxCheckerOptions::new(RuleSeverity::Warn, RuleSeverity::Allow);
    check_syntax_with_options(&script, &warning).expect("unknown commands warned through");
}

#[test]
fn test_default_options() {
    let options = SyntaxCheckerOptions::default();
    assert_eq!(options.unknown_commands(), RuleSeverity::Deny);
    assert_eq!(options.top_level_block(), RuleSeverity::Allow);
}

#[test]
fn test_build_marker_map_collects_top_level_markers() {
    let script = parse("%START%\n|SAY| one\n%MID%\n|SAY| two\n%END%\n");
    let map = build_marker_map(&script).expect("markers are unique");
    assert_eq!(map.len(), 3);
    assert_eq!(map[0].0, "START");
    assert_eq!(map[0].1, 0);
    assert_eq!(map[1].0, "MID");
    assert_eq!(map[1].1, 2);
    assert_eq!(map[2].0, "END");
    assert_eq!(map[2].1, 4);
}

#[test]
fn test_state_machine_walks_commands() {
    let script = parse("%START%\nA |SAY| \"one\"\n    |SAY| nested\nB |SAY| \"two\"\n%END%\n");
    let mut builder = StateMachine::builder();
    let machine = builder.script(&script);
    let mut machine = machine.build().expect("machine builds");

    assert_eq!(machine.current_line_number(), 0);
    let cmd = machine.next_command().unwrap().expect("a command exists");
    assert_eq!(cmd.suffix(), Some("\"one\""));
    // Blocks are passed over at the top level.
    let cmd = machine.next_command().unwrap().expect("a command exists");
    assert_eq!(cmd.suffix(), Some("\"two\""));
    assert!(machine.next_command().unwrap().is_none());
}

#[test]
fn test_state_machine_goto_and_end() {
    let script = parse("%START%\n|SAY| \"one\"\n%AGAIN%\n|SAY| \"two\"\n%END%\n");
    let mut builder = StateMachine::builder();
    let machine = builder.script(&script);
    let mut machine = machine.build().expect("machine builds");

    assert!(!machine.has_ended());
    // The walker starts on the START marker: following it moves to line 0.
    machine.follow_goto().expect("goto succeeds");
    assert_eq!(machine.current_line_number(), 0);

    machine.set_current_line_number(4);
    assert!(machine.has_ended());

    machine.set_current_line_number(1);
    assert!(machine.follow_goto().is_err());
}

#[test]
fn test_state_machine_enter_choice_block() {
    let script = parse(
        "%START%\nQ |SAY| \"Pick\"\n    |CHOICE| \"a\"\n    |CHOICE| \"b\"\n%END%\n",
    );
    let mut builder = StateMachine::builder();
    let machine = builder.script(&script);
    let mut machine = machine.build().expect("machine builds");
    let _ = machine.next_command().unwrap();
    // The walker now stands just past the speech line, on the block.
    assert_eq!(machine.current_line_number(), 2);
    machine.enter_choice_block().expect("the block holds only choices");

    machine.set_current_line_number(1);
    assert!(machine.enter_choice_block().is_err());
}

#[test]
fn test_validation_error_messages() {
    assert_eq!(
        ValidationError::DuplicateMarker.message(),
        "a marker is declared more than once"
    );
    assert_eq!(
        ValidationError::UnknownCommand.message(),
        "this command name is not recognised"
    );
}

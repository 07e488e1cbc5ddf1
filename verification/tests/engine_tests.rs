//! Tests for the execution engine: ticking through scripts, choice
//! points, jumps, and termination.

use dialogue_rs::script::Script;
use dialogue_rs::script::command::Command;
use dialogue_rs::state_tree::{EngineError, StateTree};

fn parse(text: &str) -> Script {
    Script::parse(text).expect("a script can be parsed")
}

#[test]
fn test_engine_walks_top_level_commands() {
    let script = parse("%START%\nA |SAY| \"one\"\nB |SAY| \"two\"\n%END%\n");
    let mut engine = StateTree::new(script);

    let tick = engine.tick().expect("tick succeeds");
    assert_eq!(tick.number(), 0);
    assert_eq!(tick.len(), 1);
    assert_eq!(
        tick.get(0).unwrap(),
        &Command::new("SAY", Some("A"), Some("\"one\""))
    );

    let tick = engine.tick().expect("tick succeeds");
    assert_eq!(tick.number(), 1);
    assert_eq!(
        tick.get(0).unwrap(),
        &Command::new("SAY", Some("B"), Some("\"two\""))
    );

    let tick = engine.tick().expect("tick succeeds");
    assert!(tick.is_empty());
    assert!(engine.is_done());
}

#[test]
fn test_engine_nested_blocks_flatten() {
    let nested = parse("%START%\n|SAY| \"1\"\n    |SAY| \"2\"\n        |SAY| \"3\"\n%END%\n");
    let flat = parse("%START%\n|SAY| \"1\"\n|SAY| \"2\"\n|SAY| \"3\"\n%END%\n");

    let mut emitted_nested: Vec<String> = Vec::new();
    let mut engine = StateTree::new(nested);
    loop {
        let tick = engine.tick().expect("tick succeeds");
        if tick.is_empty() {
            break;
        }
        emitted_nested.push(tick.get(0).unwrap().suffix().unwrap().to_string());
    }

    let mut emitted_flat: Vec<String> = Vec::new();
    let mut engine = StateTree::new(flat);
    loop {
        let tick = engine.tick().expect("tick succeeds");
        if tick.is_empty() {
            break;
        }
        emitted_flat.push(tick.get(0).unwrap().suffix().unwrap().to_string());
    }

    assert_eq!(emitted_nested, vec!["\"1\"", "\"2\"", "\"3\""]);
    assert_eq!(emitted_nested, emitted_flat);
}

#[test]
fn test_engine_choice_point() {
    let script = parse(
        "%START%\nQ |SAY| \"Pick\"\n    |CHOICE| \"a\"\n        |SAY| \"picked a\"\n    |CHOICE| \"b\"\n        |SAY| \"picked b\"\n%END%\n",
    );
    let mut engine = StateTree::new(script);

    let tick = engine.tick().expect("tick succeeds");
    assert_eq!(
        tick.get(0).unwrap(),
        &Command::new("SAY", Some("Q"), Some("\"Pick\""))
    );

    // A choice is pending: ticking again is illegal until one is made.
    assert_eq!(engine.tick().unwrap_err(), EngineError::IllegalState);
    assert_eq!(engine.pending_choices().unwrap().len(), 2);

    engine.choose_index(1).expect("choice succeeds");
    let tick = engine.tick().expect("tick succeeds");
    assert_eq!(
        tick.get(0).unwrap(),
        &Command::new("CHOICE", None, Some("\"b\""))
    );

    let tick = engine.tick().expect("tick succeeds");
    assert_eq!(
        tick.get(0).unwrap(),
        &Command::new("SAY", None, Some("\"picked b\""))
    );

    let tick = engine.tick().expect("tick succeeds");
    assert!(tick.is_empty());
    assert!(engine.is_done());
}

#[test]
fn test_engine_choose_outside_choice_fails() {
    let script = parse("%START%\n|SAY| \"one\"\n%END%\n");
    let mut engine = StateTree::new(script);
    assert_eq!(engine.choose_index(0).unwrap_err(), EngineError::IllegalState);
}

#[test]
fn test_engine_goto() {
    let script = parse(
        "%START%\n|SAY| \"one\"\n%LOOP%\n|SAY| \"two\"\n|SAY| \"three\"\n%END%\n",
    );
    let mut engine = StateTree::new(script);

    let tick = engine.tick().expect("tick succeeds");
    assert_eq!(tick.get(0).unwrap().suffix(), Some("\"one\""));

    engine.goto("LOOP").expect("goto succeeds");
    let tick = engine.tick().expect("tick succeeds");
    assert_eq!(tick.get(0).unwrap().suffix(), Some("\"two\""));

    assert_eq!(engine.goto("NOWHERE").unwrap_err(), EngineError::UnknownMarker);
}

#[test]
fn test_engine_goto_escapes_pending_choice() {
    let script = parse(
        "%START%\nQ |SAY| \"Pick\"\n    |CHOICE| \"a\"\n        |SAY| \"picked a\"\n%AGAIN%\n|SAY| \"after\"\n%END%\n",
    );
    let mut engine = StateTree::new(script);
    let _ = engine.tick().expect("tick succeeds");
    assert_eq!(engine.tick().unwrap_err(), EngineError::IllegalState);

    engine.goto("AGAIN").expect("goto escapes a pending choice");
    let tick = engine.tick().expect("tick succeeds");
    assert_eq!(tick.get(0).unwrap().suffix(), Some("\"after\""));
}

#[test]
fn test_engine_done_is_idempotent() {
    let script = parse("%START%\n|SAY| \"only\"\n%END%\n");
    let mut engine = StateTree::new(script);
    let tick = engine.tick().expect("tick succeeds");
    assert_eq!(tick.number(), 0);
    assert!(!tick.is_empty());

    let first_empty = engine.tick().expect("tick succeeds");
    assert!(first_empty.is_empty());
    assert_eq!(first_empty.number(), 1);
    assert!(engine.is_done());

    // Further ticks keep returning empty without advancing the count.
    let again = engine.tick().expect("tick succeeds");
    assert!(again.is_empty());
    assert_eq!(again.number(), 1);
    assert!(engine.is_done());
}

#[test]
fn test_engine_top_level_choices_run_in_sequence() {
    // Choices written at the top level are plain siblings: each runs its
    // own block in turn and no choice point arises.
    let script = parse(
        "%START%\nA |SAY| \"hi\"\n|CHOICE| \"yes\"\n    B |SAY| \"ok\"\n|CHOICE| \"no\"\n    B |SAY| \"not ok\"\n%END%\n",
    );
    let mut engine = StateTree::new(script);
    let mut emitted: Vec<String> = Vec::new();
    loop {
        let tick = engine.tick().expect("tick succeeds");
        if tick.is_empty() {
            break;
        }
        emitted.push(tick.get(0).unwrap().suffix().unwrap().to_string());
    }
    assert_eq!(
        emitted,
        vec!["\"hi\"", "\"yes\"", "\"ok\"", "\"no\"", "\"not ok\""]
    );
    assert!(engine.is_done());
}

#[test]
fn test_marker_binds_to_next_command() {
    // A marker resolves to the command that follows it, wherever it
    // stands; jumping to it emits exactly that command next.
    let script = parse(
        "%START%\n|SAY| \"a\"\n%MID%\n// note\n|SAY| \"b\"\n%END%\n",
    );
    let mut engine = StateTree::new(script);
    engine.goto("MID").expect("goto succeeds");
    let tick = engine.tick().expect("tick succeeds");
    assert_eq!(tick.get(0).unwrap().suffix(), Some("\"b\""));
}

#[test]
fn test_engine_error_messages() {
    assert_eq!(
        EngineError::IllegalState.message(),
        "the operation is not allowed in the current state"
    );
    assert_eq!(
        EngineError::UnknownMarker.message(),
        "no marker of that name exists in this script"
    );
}

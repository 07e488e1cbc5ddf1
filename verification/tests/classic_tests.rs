//! Tests for the classic pipe-less command syntax and its rule-level
//! recognizers.

use dialogue_rs::classic::choice::Choice;
use dialogue_rs::classic::goto::Goto;
use dialogue_rs::classic::indented_block::IndentedBlock;
use dialogue_rs::classic::parser::{Rule, ScriptParser};
use dialogue_rs::classic::say::Say;

#[test]
fn test_start_marker_parsing() {
    let _start_marker =
        ScriptParser::parse(Rule::StartMarker, "%START%\n").expect("parse succeeds");
}

#[test]
fn test_end_marker_parsing() {
    let _end_marker = ScriptParser::parse(Rule::EndMarker, "%END%").expect("parse succeeds");
}

#[test]
fn test_marker_parsing() {
    let markers = ["%12345%", "%HYPHENS-ARE-OK%", "%------%"];

    for marker in markers {
        let _marker = ScriptParser::parse(Rule::Marker, marker).expect("parse succeeds");
    }
}

#[test]
fn test_text_parses_all_allowed_characters() {
    let everything = "qwertyuiopasdfghjklzxcvbnmQWERTYUIOPASDFGHJKLZXCVBNM1234567890-=!@#$%^&*()_[]\\;',./{}|:\"<>?";
    let _text = ScriptParser::parse(Rule::Text, everything).expect("parse succeeds");
}

#[test]
fn test_goto_command() {
    let _goto_command =
        ScriptParser::parse(Rule::GotoCommand, "GOTO %START%").expect("parse succeeds");
}

#[test]
fn test_choice_command() {
    let _choice_command = ScriptParser::parse(Rule::ChoiceCommand, "CHOICE Succeed at parsing")
        .expect("parse succeeds");
}

#[test]
fn test_say_command() {
    let lines = [
        "SAY \"Did it work?\" she asked herself",
        "ZELDA SAY \"Did it work?\" she asked herself",
    ];

    for line in lines {
        let _say_command = ScriptParser::parse(Rule::SayCommand, line).expect("parse succeeds");
    }
}

#[test]
fn test_line_parse() {
    let lines = [
        "%START%\n",
        "SAY blah blah blah\n",
        "CHOICE Do something\n",
        "GOTO %THE-PLACE%\n",
    ];

    for line in lines {
        let _line = ScriptParser::parse(Rule::Line, line).expect("parse succeeds");
    }
}

#[test]
fn test_parse_say_without_subject() {
    let input = "SAY Oh, what a beautiful mornin'";
    let say = Say::parse(input).expect("a say can be parsed");
    assert_eq!(say.text, "Oh, what a beautiful mornin'");
    assert_eq!(say.subject, None);
}

#[test]
fn test_parse_say_with_subject() {
    let input = "Curly McLain SAY Oh, what a beautiful day";
    let say = Say::parse(input).expect("a say can be parsed");
    assert_eq!(say.text, "Oh, what a beautiful day");
    assert_eq!(say.subject.expect("subject exists"), "Curly McLain");
}

#[test]
fn test_parse_choice() {
    let input = "CHOICE It's time to choose.";
    let choice = Choice::parse(input).expect("a choice can be parsed");
    assert_eq!(choice.text, "It's time to choose.");
}

#[test]
fn test_parse_goto() {
    let input = "GOTO %START%";
    let goto = Goto::parse(input).expect("a goto can be parsed");
    assert_eq!(goto.marker.name(), "START");
}

#[test]
fn test_parse_block_of_say_commands() {
    let say_commands = "    SAY Hello, world!
    SAY Goodbye, world!
";
    let block: IndentedBlock =
        IndentedBlock::parse(say_commands).expect("a new block can be parsed");
    assert_eq!(block.0.len(), 2);
    let mut block_iter = block.0.into_iter();

    let say = block_iter
        .next()
        .expect("line 0 is a SAY command")
        .expect_say();
    assert_eq!(say.text, "Hello, world!");

    let say = block_iter
        .next()
        .expect("line 1 is a SAY command")
        .expect_say();
    assert_eq!(say.text, "Goodbye, world!");

    assert_eq!(block_iter.next(), None, "no more lines exist");
}

#[test]
fn test_parse_nested_block_attaches_sub_statements() {
    let input = "    CHOICE This one
        SAY You chose this one.
    CHOICE That one
";
    let block = IndentedBlock::parse(input).expect("a nested block can be parsed");
    assert_eq!(block.0.len(), 2);
    let mut it = block.0.into_iter();
    let choice = it.next().unwrap().expect_choice();
    assert_eq!(choice.text, "This one");
    assert_eq!(choice.sub_statements.len(), 1);
    let choice = it.next().unwrap().expect_choice();
    assert_eq!(choice.text, "That one");
    assert_eq!(choice.sub_statements.len(), 0);
}

#[test]
fn test_block_rejects_sub_statements_after_goto() {
    let input = "    GOTO %START%
        SAY Unreachable
";
    assert!(IndentedBlock::parse(input).is_err());
}

#[test]
fn test_script_rule_accepts_whole_script() {
    let input = "%START%\n    SAY Hello!\n    CHOICE Wave back\n%END%\n";
    ScriptParser::parse(Rule::Script, input).expect("parse succeeds");
    assert!(ScriptParser::parse(Rule::Script, "%START%\n    nonsense here\n%END%\n").is_err());
}

#[test]
fn test_rule_names() {
    assert_eq!(Rule::StartMarker.as_str(), "Start Marker");
    assert_eq!(Rule::IndentedBlock.as_str(), "Indent");
    assert_eq!(Rule::Script.as_str(), "Script");
}

//! Tests for the script model: markers, commands, comments, lines,
//! elements, blocks and whole scripts, including exact round trips.

use dialogue_rs::script::Script;
use dialogue_rs::script::block::Block;
use dialogue_rs::script::command::Command;
use dialogue_rs::script::comment::Comment;
use dialogue_rs::script::element::TopLevelElement;
use dialogue_rs::script::line::Line;
use dialogue_rs::script::marker::Marker;

#[test]
fn marker_test_marker_parse() {
    let marker = Marker::parse("%START%").unwrap();
    assert_eq!(marker.name(), "START");
}

#[test]
fn marker_test_round_trip() {
    let marker = Marker::parse("%START%").unwrap();
    assert_eq!(marker.to_string(), "%START%");
}

#[test]
fn test_marker_parse() {
    let marker = Marker::parse("%START%").unwrap();
    assert_eq!(marker.name(), "START");
}

#[test]
fn test_infix_command_parse() {
    let command_str = "ZELDA |SAY| \"Hello, world!\"";
    let actual = Command::parse(command_str).expect("command is valid");
    let expected = Command::new("SAY", Some("ZELDA"), Some("\"Hello, world!\""));
    assert_eq!(expected, actual);
}

#[test]
fn command_test_infix_command_parse() {
    let command_str = "ZELDA |SAY| \"Hello, world!\"";
    let actual = Command::parse(command_str).expect("command is valid");
    let expected = Command::new("SAY", Some("ZELDA"), Some("\"Hello, world!\""));
    assert_eq!(expected, actual);
}

#[test]
fn test_postfix_command_parse() {
    let command_str = "|CHOICE| Do the thing";
    let expected = Command::new("CHOICE", None, Some("Do the thing"));
    let actual = Command::parse(command_str).expect("command is valid");
    assert_eq!(expected, actual);
}

#[test]
fn command_test_postfix_command_parse() {
    let command_str = "|CHOICE| Do the thing";
    let expected = Command::new("CHOICE", None, Some("Do the thing"));
    let actual = Command::parse(command_str).expect("command is valid");
    assert_eq!(expected, actual);
}

#[test]
fn command_test_round_trip() {
    let input = "ZELDA |SAY| \"Hello, world!\"";
    let command = Command::parse(input).expect("command is valid");
    let output = command.to_string();
    assert_eq!(input, output);
}

#[test]
fn comment_test_comment_parse() {
    let comment = Comment::parse("// This is a comment\n").unwrap();
    assert_eq!(comment.text(), "This is a comment");
}

#[test]
fn comment_test_round_trip() {
    let input = "// This is a comment\n";
    let output = Comment::parse(input).unwrap().to_string();
    assert_eq!(input, output);
}

#[test]
fn test_comment_parse() {
    let comment = Comment::parse("// This is a comment").unwrap();
    assert_eq!(comment.text(), "This is a comment");
}

#[test]
fn line_test_parse_line() {
    let expected = Line::Command(Command::new(
        "SAY",
        Some("Zelda"),
        Some("\"I don't actually have anything to say\""),
    ));
    let actual = Line::parse("Zelda |SAY| \"I don't actually have anything to say\"\n\n")
        .expect("command is valid");
    assert_eq!(expected, actual);
}

#[test]
fn test_parse_line() {
    let expected = Line::Command(Command::new(
        "SAY",
        Some("Zelda"),
        Some("\"I don't actually have anything to say\""),
    ));
    let actual = Line::parse("Zelda |SAY| \"I don't actually have anything to say\"\n\n")
        .expect("command is valid");
    assert_eq!(expected, actual);
}

#[test]
fn line_test_round_trip() {
    let input = "|SAY| Does this work?\n";
    let line = Line::parse(input).expect("line is valid");
    let output = line.to_string();
    assert_eq!(input, output);
}

#[test]
fn test_round_trip() {
    let input = "|SAY| Does this work?\n";
    let line = Line::parse(input).expect("line is valid");
    let output = line.to_string();
    assert_eq!(input, output);
}

#[test]
fn element_test_comment_round_trip() {
    let input = "// hello\n";
    let comment = TopLevelElement::Comment(Comment::parse(input).unwrap());
    let actual = comment.to_string();
    assert_eq!(input, actual);
}

#[test]
fn element_test_line_round_trip() {
    let input = "|CHOICE| do the thing\n";
    let line = TopLevelElement::Line(Line::parse(input).unwrap());
    let actual = line.to_string();
    assert_eq!(input, actual);
}

#[test]
fn element_test_block_round_trip_with_single_line() {
    let input = "    |CHOICE| do the thing\n";
    let block = TopLevelElement::Block(Block::parse(input).unwrap());
    let actual = block.to_string();
    assert_eq!(input, actual);
}

#[test]
fn element_test_block_round_trip_with_multiple_lines_1() {
    let input = "    |TEST| A1
        |TEST| B1
            |TEST| C1
        |TEST| B2
";
    let block = TopLevelElement::Block(Block::parse(input).unwrap());
    let actual = block.to_string();
    assert_eq!(input, actual);
}

#[test]
fn test_block_round_trip_with_multiple_lines_1() {
    let input = "    |CHOICE| do the thing
        |CHOICE| do the other thing
            |CHOICE| do the third thing
    |SAY| We're back at the top level now
    |SAY| We're still at the top level
";
    let block = TopLevelElement::Block(Block::parse(input).unwrap());
    let actual = block.to_string();
    assert_eq!(input, actual);
}

#[test]
fn element_test_block_round_trip_with_multiple_lines_2() {
    let input = "    |TEST| A
        |TEST| B
        |TEST| C
";
    let block = TopLevelElement::Block(Block::parse(input).unwrap());
    let actual = block.to_string();
    assert_eq!(input, actual);
}

#[test]
fn test_block_round_trip_with_multiple_lines_2() {
    let input = "    |TEST| A
        |TEST| B
        |TEST| C
";
    let block = Block::parse(input).unwrap();
    let output = block.to_string();
    assert_eq!(input, output);
}

#[test]
fn test_single_line_parses_correctly() {
    let input = "    |CHOICE| do the thing\n";
    let expected = Block::new(vec![TopLevelElement::Line(Line::command(
        Command::parse("|CHOICE| do the thing").unwrap(),
    ))]);
    let actual = Block::parse(input).expect("block is valid");
    assert_eq!(expected, actual);
}

#[test]
fn block_test_single_line_parses_correctly() {
    let input = "    |CHOICE| do the thing\n";
    let expected = Block::new(vec![TopLevelElement::Line(Line::command(
        Command::parse("|CHOICE| do the thing").unwrap(),
    ))]);
    let actual = Block::parse(input).expect("block is valid");
    assert_eq!(expected, actual);
}

#[test]
fn block_test_multiple_lines_parse_correctly_1() {
    let input = "    |CHOICE| do the thing
    |CHOICE| do the other thing
    |CHOICE| do the third thing
";
    let expected = Block::new(vec![
        TopLevelElement::Line(Line::command(Command::parse("|CHOICE| do the thing").unwrap())),
        TopLevelElement::Line(Line::command(
            Command::parse("|CHOICE| do the other thing").unwrap(),
        )),
        TopLevelElement::Line(Line::command(
            Command::parse("|CHOICE| do the third thing").unwrap(),
        )),
    ]);
    let actual = Block::parse(input).expect("block is valid");
    assert_eq!(expected, actual);
}

#[test]
fn test_multiple_lines_parse_correctly() {
    let input = "    |CHOICE| do the thing
    |CHOICE| do the other thing
    |CHOICE| do the third thing
";
    let expected = Block::new(vec![
        TopLevelElement::Line(Line::command(Command::parse("|CHOICE| do the thing").unwrap())),
        TopLevelElement::Line(Line::command(
            Command::parse("|CHOICE| do the other thing").unwrap(),
        )),
        TopLevelElement::Line(Line::command(
            Command::parse("|CHOICE| do the third thing").unwrap(),
        )),
    ]);
    let actual = Block::parse(input).expect("block is valid");
    assert_eq!(expected, actual);
}

#[test]
fn block_test_multiple_lines_parse_correctly_2() {
    let input = "    |TEST| A1
        |TEST| B1
        |TEST| B2
        |TEST| B3
";
    let expected = Block::new(vec![
        TopLevelElement::Line(Line::command(Command::parse("|TEST| A1").unwrap())),
        TopLevelElement::Block(Block::new(vec![
            TopLevelElement::Line(Line::command(Command::parse("|TEST| B1").unwrap())),
            TopLevelElement::Line(Line::command(Command::parse("|TEST| B2").unwrap())),
            TopLevelElement::Line(Line::command(Command::parse("|TEST| B3").unwrap())),
        ])),
    ]);
    let actual = Block::parse(input).expect("block is valid");
    assert_eq!(expected, actual);
}

#[test]
fn test_nested_blocks_parse_correctly() {
    let input = "    |SAY| First level
        |SAY| Second level
            |SAY| Third level
";
    let expected = Block::new(vec![
        TopLevelElement::Line(Line::Command(Command::new("SAY", None, Some("First level")))),
        TopLevelElement::Block(Block::new(vec![
            TopLevelElement::Line(Line::Command(Command::new(
                "SAY",
                None,
                Some("Second level"),
            ))),
            TopLevelElement::Block(Block::new(vec![TopLevelElement::Line(Line::Command(
                Command::new("SAY", None, Some("Third level")),
            ))])),
        ])),
    ]);
    let actual = Block::parse(input).expect("block is valid");
    assert_eq!(expected, actual);
}

#[test]
fn block_test_nested_blocks_parse_correctly() {
    let input = "    |SAY| First level
        |SAY| Second level
            |SAY| Third level
";
    let expected = Block::new(vec![
        TopLevelElement::Line(Line::Command(Command::new("SAY", None, Some("First level")))),
        TopLevelElement::Block(Block::new(vec![
            TopLevelElement::Line(Line::Command(Command::new(
                "SAY",
                None,
                Some("Second level"),
            ))),
            TopLevelElement::Block(Block::new(vec![TopLevelElement::Line(Line::Command(
                Command::new("SAY", None, Some("Third level")),
            ))])),
        ])),
    ]);
    let actual = Block::parse(input).expect("block is valid");
    assert_eq!(expected, actual);
}

#[test]
fn test_one_line_round_trip() {
    let input = "    |CHOICE| do the thing\n";
    let block = Block::parse(input).expect("block is valid");
    let output = block.to_string();
    assert_eq!(input, output);
}

#[test]
fn block_test_one_line_round_trip() {
    let input = "    |CHOICE| do the thing\n";
    let block = Block::parse(input).expect("block is valid");
    let output = block.to_string();
    assert_eq!(input, output);
}

#[test]
fn test_multiline_round_trip_1() {
    let input = "    |CHOICE| do the thing
    |CHOICE| do the other thing
    |CHOICE| do the third thing
";
    let block = Block::parse(input).expect("block is valid");
    let output = block.to_string();
    assert_eq!(input, output);
}

#[test]
fn block_test_multiline_round_trip_1() {
    let input = "    |CHOICE| do the thing
    |CHOICE| do the other thing
    |CHOICE| do the third thing
";
    let block = Block::parse(input).expect("block is valid");
    let output = block.to_string();
    assert_eq!(input, output);
}

#[test]
fn test_multiline_round_trip_2() {
    let input = "    |TEST| A1
        |TEST| B1
        |TEST| B2
        |TEST| B3
";
    let block = Block::parse(input).unwrap();
    let output = block.to_string();
    assert_eq!(input, output);
}

#[test]
fn block_test_multiline_round_trip_2() {
    let input = "    |TEST| A1
        |TEST| B1
        |TEST| B2
        |TEST| B3
";
    let block = Block::parse(input).unwrap();
    let output = block.to_string();
    assert_eq!(input, output);
}

#[test]
fn test_multiline_round_trip_3() {
    let input = "    |SAY| First level
        |SAY| Second level
            |SAY| Third level
";
    let block = Block::parse(input).expect("block is valid");
    let output = block.to_string();
    assert_eq!(input, output);
}

#[test]
fn block_test_multiline_round_trip_3() {
    let input = "    |SAY| First level
        |SAY| Second level
            |SAY| Third level
";
    let block = Block::parse(input).expect("block is valid");
    let output = block.to_string();
    assert_eq!(input, output);
}

#[test]
fn test_complex_is_nesting_parsed_correctly() {
    let input = "%START%
|TEST| A
    |TEST| B
        |TEST| C
            |TEST| D
    |TEST| E
    |TEST| F
|TEST| G
%END%
";
    let script = Script::parse(input).expect("a script can be parsed");
    let actual = script.to_string();
    assert_eq!(input, actual);
}

#[test]
fn script_test_complex_is_nesting_parsed_correctly() {
    let input = "%START%
|TEST| A
    |TEST| B
        |TEST| C
            |TEST| D
    |TEST| E
    |TEST| F
|TEST| G
%END%
";
    let script = Script::parse(input).expect("a script can be parsed");
    let actual = script.to_string();
    assert_eq!(input, actual);
}

#[test]
fn test_script_with_comments_round_trips() {
    let input = "// intro
%START%
A |SAY| \"hi\"
    // nested note
    |CHOICE| \"yes\"
%END%
";
    let script = Script::parse(input).expect("a script can be parsed");
    assert_eq!(input, script.to_string());
}

#[test]
fn test_blank_lines_are_discarded() {
    let input = "%START%\n\n|SAY| one\n\n%END%\n";
    let script = Script::parse(input).expect("a script can be parsed");
    assert_eq!("%START%\n|SAY| one\n%END%\n", script.to_string());
}

#[test]
fn test_parse_rejects_unterminated_text() {
    assert!(Script::parse("%START%\n|SAY| hi\n%END%").is_err());
}

#[test]
fn test_parse_rejects_bad_indent() {
    let err = Script::parse("%START%\n  |SAY| hi\n%END%\n").unwrap_err();
    assert_eq!(err.line, 1);
}

#[test]
fn test_parse_rejects_plain_text_line() {
    assert!(Script::parse("%START%\njust some words\n%END%\n").is_err());
}

#[test]
fn test_empty_script_round_trips() {
    let script = Script::parse("").expect("empty text is an empty script");
    assert_eq!("", script.to_string());
    let empty = Script::empty();
    assert_eq!("", empty.to_string());
}

#[test]
fn test_command_accessors() {
    let c = Command::parse("ZELDA |SAY| \"Hello, world!\"").unwrap();
    assert_eq!(c.name(), "SAY");
    assert_eq!(c.prefix(), Some("ZELDA"));
    assert_eq!(c.suffix(), Some("\"Hello, world!\""));
    assert!(!c.is_choice());
    assert!(Command::parse("|CHOICE| x").unwrap().is_choice());
}

#[test]
fn test_marker_requires_delimiters() {
    assert!(Marker::parse("START").is_err());
    assert!(Marker::parse("%START").is_err());
    assert!(Marker::parse("%ST%ART%").is_err());
}

#[test]
fn test_element_accessors() {
    let line = TopLevelElement::Line(Line::parse("|SAY| x\n").unwrap());
    assert!(!line.is_block());
    assert!(!line.is_comment());
    assert!(line.as_line().is_some());
    assert!(line.as_block().is_none());
    let block = TopLevelElement::Block(Block::empty());
    assert!(block.is_block());
    assert!(block.as_block().is_some());
    let l = line.expect_line();
    assert!(l.as_command().is_some());
    assert!(l.as_marker().is_none());
}

#[test]
fn test_fmt_with_indent_levels() {
    let block = Block::parse("    |SAY| deep\n").unwrap();
    assert_eq!(block.fmt_with_indent(2), "        |SAY| deep\n");
    assert_eq!(block.fmt_with_indent(0), "|SAY| deep\n");
}

#[test]
fn test_script_iter_exposes_elements() {
    let script = Script::parse("%START%\n|SAY| one\n%END%\n").unwrap();
    assert_eq!(script.iter().len(), 3);
    let elements = script.into_iter();
    assert_eq!(elements.len(), 3);
    assert!(elements[0].as_line().is_some());
}

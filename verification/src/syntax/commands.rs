//! Shape checks for the built-in commands.

use crate::script::command::{Command, CommandV};
use crate::script::marker::{is_valid_marker_name, spec_valid_marker_name};
use crate::syntax::ValidationError;
use crate::syntax::options::{RuleSeverity, SyntaxCheckerOptions};
use crate::text::str_eq;
use vstd::prelude::*;

verus! {

/// Whether a speech command is well shaped: a suffix is required, a prefix
/// is optional.
pub open spec fn spec_say_ok(c: CommandV) -> bool {
    c.suffix is Some
}

/// Whether a choice command is well shaped: a suffix is required, a prefix
/// is not allowed.
pub open spec fn spec_choice_ok(c: CommandV) -> bool {
    c.suffix is Some && c.prefix is None
}

/// Whether a jump command is well shaped: a prefix is not allowed, a block
/// after the jump would be unreachable, and the suffix must be a non-empty
/// valid marker name.
pub open spec fn spec_goto_ok(c: CommandV, has_following_block: bool) -> bool {
    &&& c.prefix is None
    &&& !has_following_block
    &&& c.suffix matches Some(s) && spec_valid_marker_name(s)
}

/// Whether a reserved command (variables and conditions) is well shaped: a
/// suffix is required, a prefix is not allowed.
pub open spec fn spec_reserved_ok(c: CommandV) -> bool {
    c.suffix is Some && c.prefix is None
}

/// Whether one command is well shaped, given whether a block follows it.
pub open spec fn spec_command_ok(
    c: CommandV,
    has_following_block: bool,
    options: SyntaxCheckerOptions,
) -> bool {
    if c.name == "SAY"@ {
        spec_say_ok(c)
    } else if c.name == "CHOICE"@ {
        spec_choice_ok(c)
    } else if c.name == "GOTO"@ {
        spec_goto_ok(c, has_following_block)
    } else if c.name == "SET"@ || c.name == "IF"@ || c.name == "TRIGGER"@ {
        spec_reserved_ok(c)
    } else {
        options.spec_unknown_commands() != RuleSeverity::Deny
    }
}

/// Checks a speech command, per [`spec_say_ok`].
pub(crate) fn check_say(say_command: &Command) -> (r: Result<(), ValidationError>)
    ensures
        r is Ok <==> spec_say_ok(say_command@),
{
    if say_command.suffix().is_none() {
        return Err(ValidationError::MissingSuffix);
    }
    Ok(())
}

/// Checks a choice command, per [`spec_choice_ok`].
pub(crate) fn check_choice(choice_command: &Command) -> (r: Result<(), ValidationError>)
    ensures
        r is Ok <==> spec_choice_ok(choice_command@),
{
    if choice_command.suffix().is_none() {
        return Err(ValidationError::MissingSuffix);
    }
    if choice_command.prefix().is_some() {
        return Err(ValidationError::ForbiddenPrefix);
    }
    Ok(())
}

/// Checks a jump command, per [`spec_goto_ok`].
pub(crate) fn check_goto(goto_command: &Command, has_following_block: bool) -> (r: Result<
    (),
    ValidationError,
>)
    ensures
        r is Ok <==> spec_goto_ok(goto_command@, has_following_block),
{
    if goto_command.prefix().is_some() {
        return Err(ValidationError::ForbiddenPrefix);
    }
    if has_following_block {
        return Err(ValidationError::UnreachableAfterJump);
    }
    match goto_command.suffix() {
        Some(s) => {
            if is_valid_marker_name(s) {
                Ok(())
            } else {
                Err(ValidationError::InvalidMarkerName)
            }
        },
        None => Err(ValidationError::MissingSuffix),
    }
}

/// Checks a reserved command, per [`spec_reserved_ok`].
pub(crate) fn check_reserved(command: &Command) -> (r: Result<(), ValidationError>)
    ensures
        r is Ok <==> spec_reserved_ok(command@),
{
    if command.suffix().is_none() {
        return Err(ValidationError::MissingSuffix);
    }
    if command.prefix().is_some() {
        return Err(ValidationError::ForbiddenPrefix);
    }
    Ok(())
}

/// Checks one command against its shape, per [`spec_command_ok`].
pub(crate) fn check_command(
    command: &Command,
    has_following_block: bool,
    options: &SyntaxCheckerOptions,
) -> (r: Result<(), ValidationError>)
    ensures
        r is Ok <==> spec_command_ok(command@, has_following_block, *options),
{
    let name = command.name();
    if str_eq(name, "SAY") {
        check_say(command)
    } else if str_eq(name, "CHOICE") {
        check_choice(command)
    } else if str_eq(name, "GOTO") {
        check_goto(command, has_following_block)
    } else if str_eq(name, "SET") || str_eq(name, "IF") || str_eq(name, "TRIGGER") {
        check_reserved(command)
    } else {
        match options.unknown_commands() {
            RuleSeverity::Deny => Err(ValidationError::UnknownCommand),
            RuleSeverity::Warn => Ok(()),
            RuleSeverity::Allow => Ok(()),
        }
    }
}

} // verus!

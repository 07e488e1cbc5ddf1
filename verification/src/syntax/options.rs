//! Options for the syntax checker: how strictly to treat constructs that
//! are legal to parse but questionable to run.

use vstd::prelude::*;

verus! {

/// How a rule violation is treated: allowed, denied, or let through with a
/// warning.
#[derive(Debug, Clone, Copy, PartialEq, Eq, Structural)]
pub enum RuleSeverity {
    Allow,
    Deny,
    Warn,
}

/// The rules the syntax checker applies beyond command shapes.
#[derive(Debug, Clone, Copy, PartialEq, Eq, Structural)]
pub struct SyntaxCheckerOptions {
    /// How to treat a command with an unknown name.
    unknown_commands: RuleSeverity,
    /// How to treat a block declared just after the start marker.
    top_level_block: RuleSeverity,
}

/// The default options: unknown commands are denied; top-level blocks are
/// allowed.
pub closed spec fn spec_default_options() -> SyntaxCheckerOptions {
    SyntaxCheckerOptions {
        unknown_commands: RuleSeverity::Deny,
        top_level_block: RuleSeverity::Allow,
    }
}

impl Default for SyntaxCheckerOptions {
    /// Unknown commands are denied; top-level blocks are allowed.
    fn default() -> (r: Self)
        ensures
            r == spec_default_options(),
            r.spec_unknown_commands() == RuleSeverity::Deny,
            r.spec_top_level_block() == RuleSeverity::Allow,
    {
        SyntaxCheckerOptions { unknown_commands: RuleSeverity::Deny, top_level_block: RuleSeverity::Allow }
    }
}

impl SyntaxCheckerOptions {
    /// The severity for commands with an unknown name.
    pub closed spec fn spec_unknown_commands(self) -> RuleSeverity {
        self.unknown_commands
    }

    /// The severity for a block declared just after the start marker.
    pub closed spec fn spec_top_level_block(self) -> RuleSeverity {
        self.top_level_block
    }

    /// Create options with the given severities.
    pub fn new(unknown_commands: RuleSeverity, top_level_block: RuleSeverity) -> (r: Self)
        ensures
            r.spec_unknown_commands() == unknown_commands,
            r.spec_top_level_block() == top_level_block,
    {
        SyntaxCheckerOptions { unknown_commands, top_level_block }
    }

    /// The severity for commands with an unknown name.
    pub fn unknown_commands(&self) -> (r: RuleSeverity)
        ensures
            r == self.spec_unknown_commands(),
    {
        self.unknown_commands
    }

    /// The severity for a block declared just after the start marker.
    pub fn top_level_block(&self) -> (r: RuleSeverity)
        ensures
            r == self.spec_top_level_block(),
    {
        self.top_level_block
    }
}

} // verus!

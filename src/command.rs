//! What an invocation of the `def` command asks for, read from its arguments.
use vstd::prelude::*;

verus! {

/// Sub-command that adds a description.
pub const ADD_COMMAND: &'static str = "add";

/// Sub-command that adds a pattern.
pub const PATTERN_COMMAND: &'static str = "pattern";

/// Sub-command that asks for the full help text.
pub const HELP_COMMAND: &'static str = "help";

/// What the command is invoked to do, with the arguments that it needs.
///
/// For example, `def add path description` is read as
/// `InvokedTo::AddDescription("path", "description")`.
#[derive(Debug, PartialEq)]
pub enum InvokedTo {
    ShortHelp,
    Help,
    DescribePath(String),
    AddDescription(String, String),
    AddPattern(String, String),
    Unknown,
}

/// Reads the command line `args`, the program's name first: what the command
/// should do, and with which arguments.
pub fn parse(args: &[String]) -> (r: InvokedTo)
    ensures
        args@.len() == 1 ==> r is ShortHelp,
        args@.len() == 2 ==> if args@[1]@ == HELP_COMMAND@ {
            r is Help
        } else {
            (r matches InvokedTo::DescribePath(p) && p@ == args@[1]@)
        },
        args@.len() == 4 ==> if args@[1]@ == ADD_COMMAND@ {
            (r matches InvokedTo::AddDescription(p, d) && p@ == args@[2]@ && d@ == args@[3]@)
        } else if args@[1]@ == PATTERN_COMMAND@ {
            (r matches InvokedTo::AddPattern(p, d) && p@ == args@[2]@ && d@ == args@[3]@)
        } else {
            r is Unknown
        },
        args@.len() != 1 && args@.len() != 2 && args@.len() != 4 ==> r is Unknown,
{
    if args.len() == 1 {
        InvokedTo::ShortHelp
    } else if args.len() == 2 {
        if args[1] == HELP_COMMAND.to_owned() {
            InvokedTo::Help
        } else {
            InvokedTo::DescribePath(args[1].clone())
        }
    } else if args.len() == 4 {
        if args[1] == ADD_COMMAND.to_owned() {
            InvokedTo::AddDescription(args[2].clone(), args[3].clone())
        } else if args[1] == PATTERN_COMMAND.to_owned() {
            InvokedTo::AddPattern(args[2].clone(), args[3].clone())
        } else {
            InvokedTo::Unknown
        }
    } else {
        InvokedTo::Unknown
    }
}

} // verus!

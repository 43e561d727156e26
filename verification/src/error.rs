//! The failures that an invocation can end in, and what the user is told of
//! them.

use vstd::prelude::*;
use vstd::string::StringExecFns;

verus! {

/// The command that an argument list was read as.
#[derive(Debug, Clone, Copy, PartialEq, Eq, Structural)]
pub enum Command {
    Print,
    Add,
    Remove,
}

/// A value of the process environment that path resolution may need.
#[derive(Debug, Clone, Copy, PartialEq, Eq, Structural)]
pub enum Lookup {
    /// The user's home directory.
    Home,
    /// The current working directory.
    CurrentDir,
}

/// Why an invocation failed.
#[derive(Debug, Clone, Copy, PartialEq, Eq, Structural)]
pub enum Error {
    /// A command was given the wrong number of arguments. `expected` is the
    /// number the command takes (for `Print`, the most it takes) and
    /// `actual` the number that the user is told.
    ArgumentCount { command: Command, expected: usize, actual: usize },
    /// A value of the environment was needed and could not be had.
    Environment { lookup: Lookup },
    /// The document could not be written out.
    Persistence,
}

/// The ten digits.
pub open spec fn digits() -> Seq<char> {
    "0123456789"@
}

/// A number in decimal, without leading zeros.
pub open spec fn decimal(n: nat) -> Seq<char>
    decreases n,
{
    if n < 10 {
        seq![digits()[n as int]]
    } else {
        decimal(n / 10).push(digits()[(n % 10) as int])
    }
}

/// What the user is told of an error.
pub open spec fn message_of(error: Error) -> Seq<char> {
    match error {
        Error::ArgumentCount { command: Command::Add, expected, actual } => {
            "add expects 2 arguments, got "@ + decimal(actual as nat)
        },
        Error::ArgumentCount { command: Command::Remove, expected, actual } => {
            "remove expects 1 argument, got "@ + decimal(actual as nat)
        },
        Error::ArgumentCount { command: Command::Print, expected, actual } => {
            "Print expected 0 or 1 arguments, got "@ + decimal(actual as nat)
        },
        Error::Environment { lookup: Lookup::Home } => {
            "Unable to get the location of the config directory"@
        },
        Error::Environment { lookup: Lookup::CurrentDir } => "error getting the current_dir"@,
        Error::Persistence => "Unable to write the config file"@,
    }
}

/// Writes a number in decimal.
pub fn decimal_text(n: usize) -> (text: String)
    ensures
        text@ == decimal(n as nat),
    decreases n,
{
    let all = "0123456789";
    proof {
        reveal_strlit("0123456789");
        assert(all.is_ascii());
    }
    let last = n % 10;
    let digit = all.substring_ascii(last, last + 1);
    assert(digit@ =~= seq![digits()[last as int]]);
    if n < 10 {
        String::from_str(digit)
    } else {
        let mut text = decimal_text(n / 10);
        text.append(digit);
        assert(text@ =~= decimal(n as nat));
        text
    }
}

impl Error {
    /// What the user is told of the error.
    pub fn message(&self) -> (text: String)
        ensures
            text@ == message_of(*self),
    {
        match self {
            Error::ArgumentCount { command, expected, actual } => {
                let start = match command {
                    Command::Add => "add expects 2 arguments, got ",
                    Command::Remove => "remove expects 1 argument, got ",
                    Command::Print => "Print expected 0 or 1 arguments, got ",
                };
                let mut text = String::from_str(start);
                let count = decimal_text(*actual);
                text.append(count.as_str());
                text
            },
            Error::Environment { lookup: Lookup::Home } => {
                String::from_str("Unable to get the location of the config directory")
            },
            Error::Environment { lookup: Lookup::CurrentDir } => {
                String::from_str("error getting the current_dir")
            },
            Error::Persistence => String::from_str("Unable to write the config file"),
        }
    }
}

} // verus!

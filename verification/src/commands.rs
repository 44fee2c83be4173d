//! Dispatch errors of the command shell around the store.
use vstd::prelude::*;

verus! {

/// The error raised for a command the shell does not know.
#[derive(Debug, PartialEq, Eq)]
pub enum CommandError {
    UnknownCommand(String),
}

/// Rejects an unknown command by name; always fails, naming the command.
pub fn unknown_command(command: &str) -> (r: Result<(), CommandError>)
    ensures
        r matches Err(e) && e matches CommandError::UnknownCommand(c) && c@ == command@,
{
    Err(CommandError::UnknownCommand(command.to_owned()))
}

} // verus!

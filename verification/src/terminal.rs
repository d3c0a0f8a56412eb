//! Commands typed on the bot's terminal.

use vstd::prelude::*;
use crate::command::{Command, Data, command_outcome, execute_command};

verus! {

/// Runs a command typed on the terminal, with an administrator's rights:
/// the data change as `command_outcome` says.
/// Gives `false` for `/stop`, which ends the terminal's loop, and `true`
/// after running any other command.
pub fn handle_terminal(data: &mut Data, command: &Command) -> (go_on: bool)
    ensures
        go_on == (*command != Command::Stop),
        *final(data) == command_outcome(*old(data), *command, None, true).0,
{
    if let Command::Stop = *command {
        return false;
    }
    let _ = execute_command(data, command, None, true);
    true
}

} // verus!

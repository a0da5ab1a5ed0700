use vstd::prelude::*;
use vstd::string::*;

use crate::comms::protocol::{is_exit_command, is_exit_line};

verus! {

/// What a session does with one line typed on its console.
pub enum ConsoleStep {
    /// Leave the session.
    Quit,
    /// Send this text.
    Send(String),
}

/// Decides what the client does with a line read from its console, where
/// `bytes_read` is what the read returned: it leaves at the end of input or on
/// `exit`, and otherwise sends the line as it was typed.
pub fn client_input_step(bytes_read: usize, line: &str) -> (step: ConsoleStep)
    ensures
        match step {
            ConsoleStep::Quit => bytes_read == 0 || is_exit_line(line@),
            ConsoleStep::Send(text) => bytes_read != 0 && !is_exit_line(line@) && text@ == line@,
        },
{
    if bytes_read == 0 || is_exit_command(line) {
        ConsoleStep::Quit
    } else {
        ConsoleStep::Send(String::from_str(line))
    }
}

} // verus!

//! Recognises timed input commands (press, release, charge, instantaneous
//! checks) in a history of per-frame controller states.
pub mod command;
pub mod error;
pub mod grammar;
pub mod key;
pub mod laws;
pub mod render;
pub mod round_trip;
pub mod step;

pub use crate::command::Command;
pub use crate::error::Error;
pub use crate::grammar::build_command;
pub use crate::grammar::parse_command;
pub use crate::key::Key;
pub use crate::step::CommandKey;

use vstd::prelude::*;

verus! {

/// Reads a command from its text.
pub fn deserialize(data: &str) -> (r: Result<Command, Error>)
    ensures
        r matches Ok(c) ==> grammar::parse_text(data@) == Ok::<Seq<CommandKey>, error::Fault>(c@),
        r matches Err(e) ==> grammar::parse_text(data@) == Err::<Seq<CommandKey>, error::Fault>(
            e@,
        ),
{
    grammar::parse_command(data)
}

/// Writes a command as its canonical text. This is the bare text; a
/// resource layer that stores commands in a document format wraps it as a
/// string of that format.
pub fn serialize(command: &Command) -> (r: String)
    ensures
        r@ == render::command_text(command@),
{
    render::command_to_text(command)
}

} // verus!

use vstd::prelude::*;

verus! {

/// Why a piece of text could not be read as one of the library's values.
#[derive(Debug, Clone, Copy, PartialEq, Eq, Structural)]
pub enum ParseError {
    /// A field that the format asks for is not there.
    MissingField,
    /// A field is not an unsigned decimal number of the right size.
    InvalidNumber,
    /// The words do not form a known message.
    UnknownMessage,
    /// The text holds nothing but white space.
    EmptyCommand,
    /// The first character names no command.
    UnknownCommand,
    /// A command that reads a file was given no path.
    MissingPath,
}

} // verus!

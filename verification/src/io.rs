use vstd::prelude::*;

verus! {

/// A key as carried on the wire: an opaque byte string.
pub type Key = Vec<u8>;

/// A value as carried on the wire: an opaque byte string.
pub type Val = Vec<u8>;

/// A decoded client request.
#[derive(Debug, PartialEq)]
pub enum Command {
    Put { key: Key, val: Val },
    Get { key: Key },
}

/// The mathematical shape of a command: key and value as byte sequences.
pub enum CommandView {
    Put { key: Seq<u8>, val: Seq<u8> },
    Get { key: Seq<u8> },
}

impl View for Command {
    type V = CommandView;

    open spec fn view(&self) -> CommandView {
        match self {
            Command::Put { key, val } => CommandView::Put { key: key@, val: val@ },
            Command::Get { key } => CommandView::Get { key: key@ },
        }
    }
}

/// Why a line failed to decode. The first three are per-line and non-fatal;
/// `ReadError` means the transport itself failed and ends the connection.
#[derive(Debug, PartialEq)]
pub enum InvalidCommand {
    EmptyCommand,
    UnknownCommand,
    WrongNumberOfArgs,
    ReadError,
}

/// The mathematical value of one decode result.
pub open spec fn result_view(r: Result<Command, InvalidCommand>) -> Result<
    CommandView,
    InvalidCommand,
> {
    match r {
        Ok(c) => Ok(c@),
        Err(e) => Err(e),
    }
}

/// Marker for sources of decoded commands, pulled one result at a time.
pub trait CommandReader {

}

} // verus!

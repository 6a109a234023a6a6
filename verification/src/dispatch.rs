use vstd::prelude::*;

use crate::io::{Command, CommandView, InvalidCommand, Key, Val};
use crate::storage::Storage;

verus! {

/// What a command does to the mapping, and the answer it earns: a present
/// `Get` answers its value, everything else answers nothing.
pub open spec fn apply_command(m: Map<Seq<u8>, Seq<u8>>, c: CommandView) -> (Map<
    Seq<u8>,
    Seq<u8>,
>, Option<Seq<u8>>) {
    match c {
        CommandView::Get { key } => (
            m,
            if m.contains_key(key) {
                Some(m[key])
            } else {
                None
            },
        ),
        CommandView::Put { key, val } => (m.insert(key, val), None),
    }
}

/// Read the value stored under `key`, if any.
pub fn get_value<S: Storage>(store: &S, key: Key) -> (r: Option<Val>)
    ensures
        r.deep_view() == apply_command(store.contents(), CommandView::Get { key: key@ }).1,
{
    store.get(&key)
}

/// Store `val` under `key`, replacing any value already there.
pub fn set_value<S: Storage>(store: &mut S, key: Key, val: Val)
    ensures
        final(store).contents() == apply_command(
            old(store).contents(),
            CommandView::Put { key: key@, val: val@ },
        ).0,
{
    store.set(key, val);
}

/// Run one decoded command against the storage.
pub fn execute<S: Storage>(store: &mut S, command: Command) -> (r: Option<Val>)
    ensures
        final(store).contents() == apply_command(old(store).contents(), command@).0,
        r.deep_view() == apply_command(old(store).contents(), command@).1,
{
    match command {
        Command::Get { key } => get_value(store, key),
        Command::Put { key, val } => {
            set_value(store, key, val);
            None
        },
    }
}

/// What the connection loop owes the client after one decode result.
#[derive(Debug, PartialEq)]
pub enum HandlerAction {
    /// Write these bytes and a newline back to the client.
    Reply(Val),
    /// Write nothing and pull the next result.
    Continue,
    /// Close the connection.
    Stop,
}

/// Drive one step of a connection: run a decoded command against the
/// storage, swallow per-line errors, and stop on the end of the stream or
/// on a transport failure. Invalid commands earn no reply bytes.
pub fn handle_item<S: Storage>(store: &mut S, item: Option<Result<Command, InvalidCommand>>) -> (r:
    HandlerAction)
    ensures
        match item {
            None => final(store).contents() == old(store).contents() && r == HandlerAction::Stop,
            Some(Err(e)) => final(store).contents() == old(store).contents() && r == (
            if e is ReadError {
                HandlerAction::Stop
            } else {
                HandlerAction::Continue
            }),
            Some(Ok(c)) => {
                &&& final(store).contents() == apply_command(old(store).contents(), c@).0
                &&& match apply_command(old(store).contents(), c@).1 {
                    Some(v) => r matches HandlerAction::Reply(out) && out@ == v,
                    None => r == HandlerAction::Continue,
                }
            },
        },
{
    match item {
        None => HandlerAction::Stop,
        Some(Err(e)) => match e {
            InvalidCommand::ReadError => HandlerAction::Stop,
            _ => HandlerAction::Continue,
        },
        Some(Ok(command)) => match execute(store, command) {
            Some(val) => HandlerAction::Reply(val),
            None => HandlerAction::Continue,
        },
    }
}

} // verus!

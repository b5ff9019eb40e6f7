//! A verified game engine for a telnet word-deduction game.
//!
//! Rooms run a turn-based hidden-information game between a red and a blue
//! team.  The library holds the board model, the room state machine, the
//! per-player notification queues and the room registry; the surrounding
//! binary supplies the socket plumbing and hands each connection's input
//! lines to the entry points exposed here.
use vstd::prelude::*;

pub mod cards;
pub mod codenames;
pub mod game;
pub mod render;
mod rng;
pub mod text;

verus! {

/// Classification of a failure while reading one line from a connection.
/// The transport layer produces these; the library only defines them so the
/// rest of the system shares one vocabulary for read failures.
#[derive(Debug, Clone, PartialEq, Eq, Structural)]
pub enum ReadLineErrorType {
    StringParsing,
    Unrecoverable,
    WouldBlock,
    Disconnected,
}

/// A failed attempt to read one line from a connection.
#[derive(Debug, Clone)]
pub struct ReadLineError {
    pub error_type: ReadLineErrorType,
}

impl ReadLineError {
    pub fn new(error_type: ReadLineErrorType) -> (r: ReadLineError)
        ensures
            r.error_type == error_type,
    {
        ReadLineError { error_type }
    }
}

} // verus!

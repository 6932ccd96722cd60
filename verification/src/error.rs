//! Why a connection ends or a message cannot be framed.

use vstd::prelude::*;

verus! {

/// What ends a connection. None of these is retried: the connection that
/// meets one is closed.
#[derive(Debug, PartialEq, Eq, Structural, Clone, Copy)]
pub enum IRCError {
    /// A line came without a leading token.
    EmptyLine,
    /// A `PING` came without the token to answer with.
    InvalidPing,
    /// A `PRIVMSG`, `NOTICE` or `TOPIC` came without its channel or its text.
    MalformedMessage,
    /// The source prefix of a message holds no `!`, so it names no user.
    UnknownOrigin,
    /// A frame would be longer than the protocol allows.
    MessageTooLong,
    /// The ceiling asked for is above what the protocol allows.
    CeilingTooHigh,
    /// The channel's name leaves no room for text under the ceiling.
    NoRoom,
    /// The peer closed the stream.
    StreamClosed,
    /// The transport failed.
    Transport,
    /// The connection is not in its steady state.
    NotActive,
    /// The connection has been closed.
    Closed,
    /// The server refused the capability or the credentials.
    AuthenticationFailed,
    /// The connection is not waiting for an answer to its authentication.
    NotAuthenticating,
}

} // verus!

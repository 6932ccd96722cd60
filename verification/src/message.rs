//! The unit that travels on the bus between the network side and the relay side.

use crate::text::{ascii, ascii_bytes};
use vstd::prelude::*;
use vstd::string::*;

verus! {

/// The direction a message travels in.
#[allow(non_camel_case_types)]
#[derive(Debug, PartialEq, Eq, Structural, Clone, Copy)]
pub enum MessageState {
    /// From a network towards the relay platform.
    INCOMING,
    /// From the relay platform towards a network.
    OUTGOING,
}

/// One message on the bus. It is created where it enters the bridge and is
/// never changed afterwards.
#[derive(Debug)]
pub struct BouncerMessage {
    /// The server the message belongs to, as `host:port`.
    pub network: Vec<u8>,
    /// The channel on that server.
    pub channel: Vec<u8>,
    /// Who wrote it on the network side; empty when it comes from the relay side.
    pub user: Vec<u8>,
    /// The text.
    pub content: Vec<u8>,
    /// The direction.
    pub state: MessageState,
    /// Whether the text addresses the local identity.
    pub ping: bool,
}

/// What a `BouncerMessage` holds.
pub struct MessageView {
    pub network: Seq<u8>,
    pub channel: Seq<u8>,
    pub user: Seq<u8>,
    pub content: Seq<u8>,
    pub state: MessageState,
    pub ping: bool,
}

impl View for BouncerMessage {
    type V = MessageView;

    open spec fn view(&self) -> MessageView {
        MessageView {
            network: self.network@,
            channel: self.channel@,
            user: self.user@,
            content: self.content@,
            state: self.state,
            ping: self.ping,
        }
    }
}

impl Clone for BouncerMessage {
    fn clone(&self) -> (copy: Self)
        ensures
            copy@ == self@,
    {
        BouncerMessage {
            network: self.network.clone(),
            channel: self.channel.clone(),
            user: self.user.clone(),
            content: self.content.clone(),
            state: self.state,
            ping: self.ping,
        }
    }
}

/// The name of a direction, as it is printed.
pub open spec fn state_name(state: MessageState) -> Seq<u8> {
    match state {
        MessageState::INCOMING => ascii("INCOMING"),
        MessageState::OUTGOING => ascii("OUTGOING"),
    }
}

/// The line that describes a message to an operator: the four texts and the
/// direction, in that order.
pub open spec fn message_text(m: MessageView) -> Seq<u8> {
    ascii("BouncerMessage(") + m.network + ascii(", ") + m.channel + ascii(", ") + m.user + ascii(
        ", ",
    ) + m.content + ascii(", ") + state_name(m.state) + ascii(")")
}

impl BouncerMessage {
    /// The line that describes this message to an operator.
    pub fn to_text(&self) -> (line: Vec<u8>)
        ensures
            line@ == message_text(self@),
    {
        proof {
            reveal_strlit("BouncerMessage(");
            reveal_strlit(", ");
            reveal_strlit("INCOMING");
            reveal_strlit("OUTGOING");
            reveal_strlit(")");
        }
        let sep = ascii_bytes(", ");
        let mut line = ascii_bytes("BouncerMessage(");
        line.extend_from_slice(self.network.as_slice());
        line.extend_from_slice(sep.as_slice());
        line.extend_from_slice(self.channel.as_slice());
        line.extend_from_slice(sep.as_slice());
        line.extend_from_slice(self.user.as_slice());
        line.extend_from_slice(sep.as_slice());
        line.extend_from_slice(self.content.as_slice());
        line.extend_from_slice(sep.as_slice());
        let name = match self.state {
            MessageState::INCOMING => ascii_bytes("INCOMING"),
            MessageState::OUTGOING => ascii_bytes("OUTGOING"),
        };
        line.extend_from_slice(name.as_slice());
        let close = ascii_bytes(")");
        line.extend_from_slice(close.as_slice());
        line
    }
}

} // verus!

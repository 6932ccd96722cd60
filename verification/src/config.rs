//! What the operator configures: the networks, and on each the channels to
//! bridge.

use vstd::prelude::*;

verus! {

/// One bridged channel.
#[derive(Debug)]
pub struct IRCChannel {
    /// The channel's name on the network.
    pub name: Vec<u8>,
    /// The channel on the relay platform that is bridged with it.
    pub discord_channel: u64,
    /// Where messages for the relay platform are delivered: an address that
    /// holds the delivery target's number and token.
    pub webhook_url: Vec<u8>,
}

/// One network and its channels.
#[derive(Debug)]
pub struct IRCServerConfig {
    /// The server, as `host:port`.
    pub address: Vec<u8>,
    /// Whether to encrypt the transport.
    pub tls: bool,
    /// The nickname to register.
    pub nick: Vec<u8>,
    /// The secret to authenticate with, if any.
    pub password: Option<Vec<u8>>,
    /// The channels to join and bridge.
    pub channels: Vec<IRCChannel>,
}

/// What an `IRCChannel` holds.
pub struct ChannelView {
    pub name: Seq<u8>,
    pub discord_channel: u64,
    pub webhook_url: Seq<u8>,
}

/// What an `IRCServerConfig` holds.
pub struct ServerView {
    pub address: Seq<u8>,
    pub tls: bool,
    pub nick: Seq<u8>,
    pub password: Option<Seq<u8>>,
    pub channels: Seq<ChannelView>,
}

impl View for IRCChannel {
    type V = ChannelView;

    open spec fn view(&self) -> ChannelView {
        ChannelView {
            name: self.name@,
            discord_channel: self.discord_channel,
            webhook_url: self.webhook_url@,
        }
    }
}

impl View for IRCServerConfig {
    type V = ServerView;

    open spec fn view(&self) -> ServerView {
        ServerView {
            address: self.address@,
            tls: self.tls,
            nick: self.nick@,
            password: match self.password {
                Some(p) => Some(p@),
                None => None,
            },
            channels: Seq::new(self.channels@.len(), |i: int| self.channels@[i]@),
        }
    }
}

/// What a list of configured networks holds.
pub open spec fn servers_of(servers: Seq<IRCServerConfig>) -> Seq<ServerView> {
    Seq::new(servers.len(), |i: int| servers[i]@)
}

impl IRCServerConfig {
    /// The names of the channels to join, in the order configured.
    pub fn channel_names(&self) -> (names: Vec<Vec<u8>>)
        ensures
            names@.len() == self@.channels.len(),
            forall|i: int| 0 <= i < names@.len() ==> (#[trigger] names@[i])@ == self@.channels[i].name,
    {
        let mut names: Vec<Vec<u8>> = Vec::new();
        let mut i: usize = 0;
        while i < self.channels.len()
            invariant
                0 <= i <= self.channels@.len(),
                names@.len() == i,
                forall|k: int|
                    0 <= k < i ==> (#[trigger] names@[k])@ == self.channels@[k].name@,
            decreases self.channels.len() - i,
        {
            names.push(self.channels[i].name.clone());
            i += 1;
        }
        names
    }

    /// The secret to authenticate with; empty when none is configured.
    pub fn secret(&self) -> (password: Vec<u8>)
        ensures
            password@ == match self@.password {
                Some(p) => p,
                None => Seq::empty(),
            },
    {
        match &self.password {
            Some(p) => p.clone(),
            None => Vec::new(),
        }
    }
}

} // verus!

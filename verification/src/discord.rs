//! The relay platform's side of the bridge: what its events become on the
//! bus, and what is handed to it for the messages from the networks.

use crate::config::{servers_of, IRCChannel, IRCServerConfig, ServerView};
use crate::delivery::{
    action_pattern, attempts_made, ends_delivered, lemma_three_failures_give_up, relay_text,
    retry_step, transform_content, Retry, MAX_ATTEMPTS, RETRY_DELAY_MS,
};
use crate::message::{BouncerMessage, MessageState, MessageView};
use crate::outside::{captures, captures_view, regex_captures};
use crate::routing::{
    add_channel_links, add_channel_routes, bridged, channel_count, channels_deliverable,
    configured, find_route,
    lemma_routes_prefix, lemma_routing_total, links_view, routes_view, server_links,
    server_routes, servers_deliverable, webhook_from_url, Address, DiscordChannel, IRCServer,
    Route, Target,
};
use crate::text::ascii;
use std::collections::HashMap;
use std::sync::atomic::AtomicBool;
use vstd::prelude::*;
use vstd::std_specs::hash::*;
use vstd::string::*;

verus! {

broadcast use group_hash_axioms;

/// The bridge as the relay platform's events see it: the routing table in
/// both directions, the owner whose messages are forwarded, and the flag
/// that lets the delivery listener start once.
pub struct Handler {
    /// Whether the delivery listener has been started.
    pub is_loop_running: AtomicBool,
    /// From a channel of the relay platform to a channel of a network.
    pub discord_irc_map: HashMap<u64, IRCServer>,
    /// From a channel of a network to its delivery target.
    pub irc_discord_map: Vec<Route>,
    /// The owner on the relay platform.
    pub discord_user_id: u64,
}

/// A message seen on the relay platform.
#[derive(Debug)]
pub struct RelayEvent {
    /// Who wrote it.
    pub author_id: u64,
    /// The channel it was written in.
    pub channel_id: u64,
    /// The name of the author it replies to, if it is a reply.
    pub reply_to: Option<Vec<u8>>,
    /// The text.
    pub content: Vec<u8>,
    /// The addresses of the files attached to it.
    pub attachments: Vec<Vec<u8>>,
}

/// What a `RelayEvent` holds.
pub struct RelayEventView {
    pub author_id: u64,
    pub channel_id: u64,
    pub reply_to: Option<Seq<u8>>,
    pub content: Seq<u8>,
    pub attachments: Seq<Seq<u8>>,
}

impl View for RelayEvent {
    type V = RelayEventView;

    open spec fn view(&self) -> RelayEventView {
        RelayEventView {
            author_id: self.author_id,
            channel_id: self.channel_id,
            reply_to: match self.reply_to {
                Some(name) => Some(name@),
                None => None,
            },
            content: self.content@,
            attachments: Seq::new(self.attachments@.len(), |i: int| self.attachments@[i]@),
        }
    }
}

/// What is to be done with a message from the bus.
#[derive(Debug)]
pub enum Delivery {
    /// Nothing: the message does not travel towards the relay platform.
    Ignored,
    /// Nothing but a note to the operator: no delivery target is configured
    /// for the message's channel.
    UnexpectedChannel,
    /// Hand `content` to `target` under the name `username`.
    Post { target: DiscordChannel, username: Vec<u8>, content: Vec<u8> },
}

/// What a `Delivery` holds.
pub enum DeliveryView {
    Ignored,
    UnexpectedChannel,
    Post { target: Target, username: Seq<u8>, content: Seq<u8> },
}

impl View for Delivery {
    type V = DeliveryView;

    open spec fn view(&self) -> DeliveryView {
        match self {
            Delivery::Ignored => DeliveryView::Ignored,
            Delivery::UnexpectedChannel => DeliveryView::UnexpectedChannel,
            Delivery::Post { target, username, content } => DeliveryView::Post {
                target: target@,
                username: username@,
                content: content@,
            },
        }
    }
}

/// The first `n` attachments, each behind one space.
pub open spec fn attached(urls: Seq<Seq<u8>>, n: nat) -> Seq<u8>
    decreases n,
{
    if n == 0 {
        Seq::empty()
    } else {
        attached(urls, (n - 1) as nat) + ascii(" ") + urls[n - 1]
    }
}

/// The text of an event as one line: the name it replies to and a colon,
/// the text, then the attachments.
pub open spec fn flattened(event: RelayEventView) -> Seq<u8> {
    (match event.reply_to {
        Some(name) => name + ascii(":"),
        None => Seq::empty(),
    }) + event.content + attached(event.attachments, event.attachments.len())
}

/// The message that an event of the relay platform puts on the bus: none
/// unless the owner wrote it in a bridged channel.
pub open spec fn outgoing_message(
    links: Map<u64, Address>,
    owner: u64,
    event: RelayEventView,
) -> Option<MessageView> {
    if event.author_id == owner && links.contains_key(event.channel_id) {
        Some(
            MessageView {
                network: links[event.channel_id].addr,
                channel: links[event.channel_id].channel,
                user: Seq::empty(),
                content: flattened(event),
                state: MessageState::OUTGOING,
                ping: false,
            },
        )
    } else {
        None
    }
}

/// What is to be done with a message from the bus, given what the action
/// expression captured in its text.
pub open spec fn delivery_of(
    routes: Map<Address, Target>,
    owner: u64,
    cmd: MessageView,
    found: Option<Seq<Option<Seq<u8>>>>,
) -> DeliveryView {
    let from = Address { addr: cmd.network, channel: cmd.channel };
    if cmd.state != MessageState::INCOMING {
        DeliveryView::Ignored
    } else if !routes.contains_key(from) {
        DeliveryView::UnexpectedChannel
    } else {
        DeliveryView::Post {
            target: routes[from],
            username: cmd.user,
            content: relay_text(cmd.content, cmd.ping, owner, found),
        }
    }
}

/// The calls of the delivery that are made for a plan, when the `k`-th call
/// succeeds exactly if `outcomes[k]` says so: none unless the plan is to
/// post, and else the same post for every attempt.
pub open spec fn delivery_calls(plan: DeliveryView, outcomes: Seq<bool>) -> Seq<DeliveryView> {
    if plan is Post {
        Seq::new(attempts_made(0, outcomes), |k: int| plan)
    } else {
        Seq::empty()
    }
}

/// With the tables that a configuration gives, a message from the bus is
/// handed to the relay platform exactly when it comes from a network and
/// the configuration names its channel; one that comes from a network and
/// a channel that the configuration does not name is dropped as
/// unexpected, and no delivery is called for it. An event of the relay
/// platform is published exactly when the owner wrote it in a bridged
/// channel.
pub proof fn lemma_bridge_follows_configuration(
    servers: Seq<ServerView>,
    owner: u64,
    cmd: MessageView,
    found: Option<Seq<Option<Seq<u8>>>>,
    event: RelayEventView,
    outcomes: Seq<bool>,
)
    ensures
        delivery_of(server_routes(servers, servers.len()), owner, cmd, found) is Post <==> cmd.state
            == MessageState::INCOMING && configured(
            servers,
            servers.len(),
            Address { addr: cmd.network, channel: cmd.channel },
        ),
        delivery_of(server_routes(servers, servers.len()), owner, cmd, found) is UnexpectedChannel
            <==> cmd.state == MessageState::INCOMING && !configured(
            servers,
            servers.len(),
            Address { addr: cmd.network, channel: cmd.channel },
        ),
        !(delivery_of(server_routes(servers, servers.len()), owner, cmd, found) is Post)
            ==> delivery_calls(
            delivery_of(server_routes(servers, servers.len()), owner, cmd, found),
            outcomes,
        ).len() == 0,
        outgoing_message(server_links(servers, servers.len()), owner, event) is Some
            <==> event.author_id == owner && bridged(servers, servers.len(), event.channel_id),
{
    lemma_routing_total(servers, servers.len());
}

/// A message whose delivery fails three times in a row is handed to the
/// delivery exactly three times, each time to the same target, under the
/// same name and with the same text, and never a fourth time. It is then
/// given up: the attempts do not end delivered, and what is decided after
/// the third holds nothing to publish or to write.
pub proof fn lemma_failed_delivery_is_dropped(plan: DeliveryView, outcomes: Seq<bool>)
    requires
        plan is Post,
        outcomes.len() >= 3,
        !outcomes[0],
        !outcomes[1],
        !outcomes[2],
    ensures
        delivery_calls(plan, outcomes).len() == MAX_ATTEMPTS,
        forall|k: int| 0 <= k < MAX_ATTEMPTS ==> delivery_calls(plan, outcomes)[k] == plan,
        !ends_delivered(0, outcomes),
        retry_step(2, false) == (Retry::GiveUp { wait_ms: RETRY_DELAY_MS }),
{
    lemma_three_failures_give_up(outcomes);
}

impl Handler {
    /// The routes towards the relay platform.
    pub open spec fn routes(&self) -> Map<Address, Target> {
        routes_view(self.irc_discord_map@)
    }

    /// The routes towards the networks.
    pub open spec fn links(&self) -> Map<u64, Address> {
        links_view(self.discord_irc_map@)
    }

    /// Whether messages of this author are forwarded: only the owner's are.
    pub fn is_owner(&self, author_id: u64) -> (yes: bool)
        ensures
            yes == (author_id == self.discord_user_id),
    {
        author_id == self.discord_user_id
    }

    /// Turns an event of the relay platform into the message to publish.
    pub fn message(&self, msg: &RelayEvent) -> (published: Option<BouncerMessage>)
        ensures
            match published {
                Some(m) => outgoing_message(self.links(), self.discord_user_id, msg@) == Some(m@),
                None => outgoing_message(self.links(), self.discord_user_id, msg@) is None,
            },
    {
        proof {
            reveal_strlit(":");
            reveal_strlit(" ");
        }
        if msg.author_id != self.discord_user_id {
            return None;
        }
        let irc = match self.discord_irc_map.get(&msg.channel_id) {
            Some(irc) => irc,
            None => {
                return None;
            },
        };
        let mut content: Vec<u8> = Vec::new();
        match &msg.reply_to {
            Some(name) => {
                content.extend_from_slice(name.as_slice());
                content.push(58u8);
            },
            None => {},
        }
        content.extend_from_slice(msg.content.as_slice());
        let ghost head = content@;
        let mut i: usize = 0;
        while i < msg.attachments.len()
            invariant
                0 <= i <= msg.attachments@.len(),
                content@ == head + attached(msg@.attachments, i as nat),
                ascii(" ") == seq![32u8],
            decreases msg.attachments.len() - i,
        {
            content.push(32u8);
            content.extend_from_slice(msg.attachments[i].as_slice());
            i += 1;
        }
        assert(content@ =~= flattened(msg@));
        Some(
            BouncerMessage {
                channel: irc.channel.clone(),
                network: irc.addr.clone(),
                user: Vec::new(),
                content,
                state: MessageState::OUTGOING,
                ping: false,
            },
        )
    }

    /// Decides what to do with a message from the bus, given what the
    /// action expression captured in its text.
    pub fn plan_delivery(&self, cmd: &BouncerMessage, found: &Option<Vec<Option<Vec<u8>>>>) -> (plan:
        Delivery)
        ensures
            plan@ == delivery_of(self.routes(), self.discord_user_id, cmd@, captures_view(*found)),
    {
        if cmd.state != MessageState::INCOMING {
            return Delivery::Ignored;
        }
        let target = match find_route(
            &self.irc_discord_map,
            cmd.network.as_slice(),
            cmd.channel.as_slice(),
        ) {
            Some(target) => target,
            None => {
                return Delivery::UnexpectedChannel;
            },
        };
        let content = transform_content(
            cmd.content.clone(),
            cmd.ping,
            self.discord_user_id,
            found,
        );
        Delivery::Post { target: target.clone(), username: cmd.user.clone(), content }
    }

    /// Decides what to do with a message from the bus: drop it, or hand its
    /// text to the delivery target of its channel.
    pub fn deliver(&self, cmd: &BouncerMessage) -> (plan: Delivery)
        ensures
            plan@ == delivery_of(
                self.routes(),
                self.discord_user_id,
                cmd@,
                regex_captures(action_pattern(), cmd@.content),
            ),
    {
        let found = captures("\x01ACTION([^\x01]+)\x01", cmd.content.as_slice());
        self.plan_delivery(cmd, &found)
    }
}

/// Adds the routes of one network's channels to the two tables, or fails at
/// the first channel whose delivery address denotes no target.
fn add_channels(
    routes: &mut Vec<Route>,
    links: &mut HashMap<u64, IRCServer>,
    address: &Vec<u8>,
    channels: &Vec<IRCChannel>,
) -> (added: bool)
    ensures
        added == channels_deliverable(
            Seq::new(channels@.len(), |i: int| channels@[i]@),
            channels@.len() as nat,
        ),
        added ==> routes_view(final(routes)@) == add_channel_routes(
            routes_view(old(routes)@),
            address@,
            Seq::new(channels@.len(), |i: int| channels@[i]@),
            channels@.len() as nat,
        ),
        added ==> links_view(final(links)@) == add_channel_links(
            links_view(old(links)@),
            address@,
            Seq::new(channels@.len(), |i: int| channels@[i]@),
            channels@.len() as nat,
        ),
        added ==> final(routes)@.len() == old(routes)@.len() + channels@.len(),
{
    let ghost views = Seq::new(channels@.len(), |i: int| channels@[i]@);
    let ghost routes_before = routes_view(routes@);
    let ghost links_before = links_view(links@);
    let ghost held = routes@.len();
    let mut j: usize = 0;
    while j < channels.len()
        invariant
            0 <= j <= channels@.len(),
            routes@.len() == held + j,
            views == Seq::new(channels@.len(), |i: int| channels@[i]@),
            channels_deliverable(views, j as nat),
            routes_view(routes@) == add_channel_routes(routes_before, address@, views, j as nat),
            links_view(links@) == add_channel_links(links_before, address@, views, j as nat),
        decreases channels.len() - j,
    {
        let channel = &channels[j];
        assert(views[j as int] == channel@);
        let target = match webhook_from_url(channel.webhook_url.as_slice()) {
            Some(target) => target,
            None => {
                return false;
            },
        };
        let ghost routes_so_far = routes@;
        let ghost links_so_far = links@;
        let route = Route {
            server: IRCServer { addr: address.clone(), channel: channel.name.clone() },
            target,
        };
        routes.push(route);
        links.insert(
            channel.discord_channel,
            IRCServer { addr: address.clone(), channel: channel.name.clone() },
        );
        proof {
            assert(routes@.drop_last() =~= routes_so_far);
            lemma_routes_prefix(routes@, routes_so_far.len());
            assert(links_view(links@) =~= links_view(links_so_far).insert(
                channel.discord_channel,
                Address { addr: address@, channel: channel.name@ },
            ));
        }
        j += 1;
    }
    true
}

/// Builds the bridge's view of the configuration: the routing table in both
/// directions, for the owner given. It fails when the delivery address of a
/// channel denotes no target.
pub fn discord_init(discord_user_id: u64, servers: &Vec<IRCServerConfig>) -> (handler: Option<
    Handler,
>)
    ensures
        match handler {
            Some(h) => {
                &&& servers_deliverable(servers_of(servers@), servers@.len() as nat)
                &&& h.routes() == server_routes(servers_of(servers@), servers@.len() as nat)
                &&& h.links() == server_links(servers_of(servers@), servers@.len() as nat)
                &&& h.irc_discord_map@.len() == channel_count(
                    servers_of(servers@),
                    servers@.len() as nat,
                )
                &&& h.discord_user_id == discord_user_id
            },
            None => !servers_deliverable(servers_of(servers@), servers@.len() as nat),
        },
{
    let ghost views = servers_of(servers@);
    let mut irc_discord_map: Vec<Route> = Vec::new();
    let mut discord_irc_map: HashMap<u64, IRCServer> = HashMap::new();
    let mut i: usize = 0;
    while i < servers.len()
        invariant
            0 <= i <= servers@.len(),
            views == servers_of(servers@),
            servers_deliverable(views, i as nat),
            routes_view(irc_discord_map@) == server_routes(views, i as nat),
            irc_discord_map@.len() == channel_count(views, i as nat),
            links_view(discord_irc_map@) == server_links(views, i as nat),
        decreases servers.len() - i,
    {
        let server = &servers[i];
        assert(views[i as int] == server@);
        if !add_channels(
            &mut irc_discord_map,
            &mut discord_irc_map,
            &server.address,
            &server.channels,
        ) {
            return None;
        }
        i += 1;
    }
    Some(
        Handler {
            is_loop_running: AtomicBool::new(false),
            discord_irc_map,
            irc_discord_map,
            discord_user_id,
        },
    )
}

} // verus!

//! The routing table: which delivery target stands for a channel of a
//! network, and which channel of a network stands for a channel of the relay
//! platform. It is built once from the configuration and only read after.

use crate::config::{ChannelView, ServerView};
use crate::number::{parse_decimal, parse_u64};
use crate::outside::{captures, captures_view, groups_view, regex_captures};
use crate::text::bytes_eq;
use vstd::prelude::*;

verus! {

/// A channel of a network.
#[derive(Debug)]
pub struct IRCServer {
    /// The server, as `host:port`.
    pub addr: Vec<u8>,
    /// The channel's name.
    pub channel: Vec<u8>,
}

/// Where messages for the relay platform are delivered.
#[derive(Debug)]
pub struct DiscordChannel {
    /// The delivery target's number.
    pub webhook_id: u64,
    /// The token that opens it.
    pub webhook_token: Vec<u8>,
}

/// One line of the routing table.
#[derive(Debug)]
pub struct Route {
    pub server: IRCServer,
    pub target: DiscordChannel,
}

/// What an `IRCServer` holds.
pub struct Address {
    pub addr: Seq<u8>,
    pub channel: Seq<u8>,
}

/// What a `DiscordChannel` holds.
pub struct Target {
    pub webhook_id: u64,
    pub webhook_token: Seq<u8>,
}

impl View for IRCServer {
    type V = Address;

    open spec fn view(&self) -> Address {
        Address { addr: self.addr@, channel: self.channel@ }
    }
}

impl View for DiscordChannel {
    type V = Target;

    open spec fn view(&self) -> Target {
        Target { webhook_id: self.webhook_id, webhook_token: self.webhook_token@ }
    }
}

impl Clone for IRCServer {
    fn clone(&self) -> (copy: Self)
        ensures
            copy@ == self@,
    {
        IRCServer { addr: self.addr.clone(), channel: self.channel.clone() }
    }
}

impl Clone for DiscordChannel {
    fn clone(&self) -> (copy: Self)
        ensures
            copy@ == self@,
    {
        DiscordChannel {
            webhook_id: self.webhook_id,
            webhook_token: self.webhook_token.clone(),
        }
    }
}

/// The expression that finds the number and the token in a delivery address.
pub open spec fn webhook_pattern() -> Seq<char> {
    ".+/webhooks/([^/]+)/([^/]+)"@
}

/// The delivery target that the captured groups denote: group 1 is the
/// number, in decimal, and group 2 the token. A group that did not take part
/// stands for 0 or for the empty token. There is no target where nothing
/// matched or where group 1 is no number.
pub open spec fn target_of_captures(found: Option<Seq<Option<Seq<u8>>>>) -> Option<Target> {
    match found {
        None => None,
        Some(groups) => {
            let number = if groups.len() > 1 && groups[1] is Some {
                parse_decimal(groups[1]->0)
            } else {
                Some(0u64)
            };
            let token = if groups.len() > 2 && groups[2] is Some {
                groups[2]->0
            } else {
                Seq::empty()
            };
            match number {
                Some(n) => Some(Target { webhook_id: n, webhook_token: token }),
                None => None,
            }
        },
    }
}

/// The delivery target that a delivery address denotes, if it denotes one.
pub open spec fn webhook_target(url: Seq<u8>) -> Option<Target> {
    target_of_captures(regex_captures(webhook_pattern(), url))
}

/// The table after the first `n` routes: a later route for the same channel
/// replaces an earlier one.
pub open spec fn routes_of(entries: Seq<Route>, n: nat) -> Map<Address, Target>
    decreases n,
{
    if n == 0 {
        Map::empty()
    } else {
        routes_of(entries, (n - 1) as nat).insert(entries[n - 1].server@, entries[n - 1].target@)
    }
}

/// The table that a list of routes stands for.
pub open spec fn routes_view(entries: Seq<Route>) -> Map<Address, Target> {
    routes_of(entries, entries.len())
}

/// The table that a map from the relay platform's channels stands for.
pub open spec fn links_view(links: Map<u64, IRCServer>) -> Map<u64, Address> {
    Map::new(|id: u64| links.contains_key(id), |id: u64| links[id]@)
}

/// The routes towards the relay platform after the first `n` channels of a
/// network have been added to `routes`.
pub open spec fn add_channel_routes(
    routes: Map<Address, Target>,
    address: Seq<u8>,
    channels: Seq<ChannelView>,
    n: nat,
) -> Map<Address, Target>
    decreases n,
{
    if n == 0 {
        routes
    } else {
        add_channel_routes(routes, address, channels, (n - 1) as nat).insert(
            Address { addr: address, channel: channels[n - 1].name },
            webhook_target(channels[n - 1].webhook_url)->0,
        )
    }
}

/// The routes towards the relay platform that the first `n` networks give.
pub open spec fn server_routes(servers: Seq<ServerView>, n: nat) -> Map<Address, Target>
    decreases n,
{
    if n == 0 {
        Map::empty()
    } else {
        add_channel_routes(
            server_routes(servers, (n - 1) as nat),
            servers[n - 1].address,
            servers[n - 1].channels,
            servers[n - 1].channels.len(),
        )
    }
}

/// The routes towards the networks after the first `n` channels of a
/// network have been added to `links`.
pub open spec fn add_channel_links(
    links: Map<u64, Address>,
    address: Seq<u8>,
    channels: Seq<ChannelView>,
    n: nat,
) -> Map<u64, Address>
    decreases n,
{
    if n == 0 {
        links
    } else {
        add_channel_links(links, address, channels, (n - 1) as nat).insert(
            channels[n - 1].discord_channel,
            Address { addr: address, channel: channels[n - 1].name },
        )
    }
}

/// The routes towards the networks that the first `n` networks give.
pub open spec fn server_links(servers: Seq<ServerView>, n: nat) -> Map<u64, Address>
    decreases n,
{
    if n == 0 {
        Map::empty()
    } else {
        add_channel_links(
            server_links(servers, (n - 1) as nat),
            servers[n - 1].address,
            servers[n - 1].channels,
            servers[n - 1].channels.len(),
        )
    }
}

/// Whether the first `n` channels of a network all have a delivery address
/// that denotes a target.
pub open spec fn channels_deliverable(channels: Seq<ChannelView>, n: nat) -> bool {
    forall|j: int| 0 <= j < n ==> webhook_target((#[trigger] channels[j]).webhook_url) is Some
}

/// Whether every channel of the first `n` networks has a delivery address
/// that denotes a target.
pub open spec fn servers_deliverable(servers: Seq<ServerView>, n: nat) -> bool {
    forall|i: int|
        0 <= i < n ==> channels_deliverable(
            (#[trigger] servers[i]).channels,
            servers[i].channels.len(),
        )
}

/// The `j`-th channel of the `i`-th network, as the routing table names it.
pub open spec fn channel_address(servers: Seq<ServerView>, i: int, j: int) -> Address {
    Address { addr: servers[i].address, channel: servers[i].channels[j].name }
}

/// Whether the configuration names this channel of this network.
pub open spec fn configured(servers: Seq<ServerView>, n: nat, a: Address) -> bool {
    exists|i: int, j: int|
        0 <= i < n && 0 <= j < servers[i].channels.len() && servers[i].address == a.addr
            && #[trigger] servers[i].channels[j].name == a.channel
}

/// Whether the configuration bridges this channel of the relay platform.
pub open spec fn bridged(servers: Seq<ServerView>, n: nat, id: u64) -> bool {
    exists|i: int, j: int|
        0 <= i < n && 0 <= j < servers[i].channels.len()
            && #[trigger] servers[i].channels[j].discord_channel == id
}

/// Adding the channels of one network adds exactly their routes.
pub proof fn lemma_channel_routes(
    routes: Map<Address, Target>,
    address: Seq<u8>,
    channels: Seq<ChannelView>,
    n: nat,
)
    requires
        n <= channels.len(),
    ensures
        forall|a: Address|
            #[trigger] add_channel_routes(routes, address, channels, n).contains_key(a) <==> (
            routes.contains_key(a) || (a.addr == address && exists|j: int|
                0 <= j < n && #[trigger] channels[j].name == a.channel)),
    decreases n,
{
    if n > 0 {
        lemma_channel_routes(routes, address, channels, (n - 1) as nat);
        assert forall|a: Address|
            #[trigger] add_channel_routes(routes, address, channels, n).contains_key(a) <==> (
            routes.contains_key(a) || (a.addr == address && exists|j: int|
                0 <= j < n && #[trigger] channels[j].name == a.channel)) by {
            let before = add_channel_routes(routes, address, channels, (n - 1) as nat);
            if before.contains_key(a) && !routes.contains_key(a) {
                let j = choose|j: int| 0 <= j < n - 1 && #[trigger] channels[j].name == a.channel;
                assert(0 <= j < n && channels[j].name == a.channel);
            }
            if !before.contains_key(a) && a.addr == address && exists|j: int|
                0 <= j < n && #[trigger] channels[j].name == a.channel {
                let j = choose|j: int| 0 <= j < n && #[trigger] channels[j].name == a.channel;
                assert(j == n - 1);
            }
        }
    }
}

/// Adding the channels of one network adds exactly their links.
pub proof fn lemma_channel_links(
    links: Map<u64, Address>,
    address: Seq<u8>,
    channels: Seq<ChannelView>,
    n: nat,
)
    requires
        n <= channels.len(),
    ensures
        forall|id: u64|
            #[trigger] add_channel_links(links, address, channels, n).contains_key(id) <==> (
            links.contains_key(id) || exists|j: int|
                0 <= j < n && #[trigger] channels[j].discord_channel == id),
    decreases n,
{
    if n > 0 {
        lemma_channel_links(links, address, channels, (n - 1) as nat);
        assert forall|id: u64|
            #[trigger] add_channel_links(links, address, channels, n).contains_key(id) <==> (
            links.contains_key(id) || exists|j: int|
                0 <= j < n && #[trigger] channels[j].discord_channel == id) by {
            let before = add_channel_links(links, address, channels, (n - 1) as nat);
            if before.contains_key(id) && !links.contains_key(id) {
                let j = choose|j: int|
                    0 <= j < n - 1 && #[trigger] channels[j].discord_channel == id;
                assert(0 <= j < n && channels[j].discord_channel == id);
            }
            if !before.contains_key(id) && exists|j: int|
                0 <= j < n && #[trigger] channels[j].discord_channel == id {
                let j = choose|j: int| 0 <= j < n && #[trigger] channels[j].discord_channel == id;
                assert(j == n - 1);
            }
        }
    }
}

/// The routing table is total on what is configured and empty elsewhere: a
/// channel of a network has a delivery target exactly when the configuration
/// names it, and a channel of the relay platform has a channel of a network
/// exactly when the configuration bridges it. So every configured channel
/// resolves in both directions.
pub proof fn lemma_routing_total(servers: Seq<ServerView>, n: nat)
    requires
        n <= servers.len(),
    ensures
        forall|a: Address| #[trigger]
            server_routes(servers, n).contains_key(a) <==> configured(servers, n, a),
        forall|id: u64| #[trigger]
            server_links(servers, n).contains_key(id) <==> bridged(servers, n, id),
        forall|i: int, j: int|
            0 <= i < n && 0 <= j < servers[i].channels.len() ==> {
                &&& server_routes(servers, n).contains_key(#[trigger] channel_address(servers, i, j))
                &&& server_links(servers, n).contains_key(servers[i].channels[j].discord_channel)
            },
{
    lemma_routing_domains(servers, n);
}

/// The domains of the two tables are what the configuration names.
proof fn lemma_routing_domains(servers: Seq<ServerView>, n: nat)
    requires
        n <= servers.len(),
    ensures
        forall|a: Address| #[trigger]
            server_routes(servers, n).contains_key(a) <==> configured(servers, n, a),
        forall|id: u64| #[trigger]
            server_links(servers, n).contains_key(id) <==> bridged(servers, n, id),
    decreases n,
{
    if n > 0 {
        let m = (n - 1) as nat;
        let s = servers[n - 1];
        lemma_routing_domains(servers, m);
        lemma_channel_routes(server_routes(servers, m), s.address, s.channels, s.channels.len());
        lemma_channel_links(server_links(servers, m), s.address, s.channels, s.channels.len());
    }
}

/// How many channels the first `n` networks have in all.
pub open spec fn channel_count(servers: Seq<ServerView>, n: nat) -> nat
    decreases n,
{
    if n == 0 {
        0
    } else {
        channel_count(servers, (n - 1) as nat) + servers[n - 1].channels.len()
    }
}

/// The channel of the relay platform that the `j`-th channel of the `i`-th
/// network is bridged with.
pub open spec fn channel_link(servers: Seq<ServerView>, i: int, j: int) -> u64 {
    servers[i].channels[j].discord_channel
}

/// Whether no two configured channels share their network and their name.
pub open spec fn distinct_addresses(servers: Seq<ServerView>) -> bool {
    forall|i: int, j: int, k: int, l: int|
        0 <= i < servers.len() && 0 <= j < servers[i].channels.len() && 0 <= k < servers.len() && 0
            <= l < servers[k].channels.len() && (i != k || j != l) ==> #[trigger] channel_address(
            servers,
            i,
            j,
        ) != #[trigger] channel_address(servers, k, l)
}

/// Whether no two configured channels are bridged with the same channel of
/// the relay platform.
pub open spec fn distinct_links(servers: Seq<ServerView>) -> bool {
    forall|i: int, j: int, k: int, l: int|
        0 <= i < servers.len() && 0 <= j < servers[i].channels.len() && 0 <= k < servers.len() && 0
            <= l < servers[k].channels.len() && (i != k || j != l) ==> #[trigger] channel_link(
            servers,
            i,
            j,
        ) != #[trigger] channel_link(servers, k, l)
}

/// Adding `n` channels whose routes are all new adds `n` routes.
proof fn lemma_channel_routes_count(
    routes: Map<Address, Target>,
    address: Seq<u8>,
    channels: Seq<ChannelView>,
    n: nat,
)
    requires
        n <= channels.len(),
        routes.dom().finite(),
        forall|j: int|
            0 <= j < n ==> !routes.contains_key(
                Address { addr: address, channel: (#[trigger] channels[j]).name },
            ),
        forall|j: int, l: int| 0 <= j < l < n ==> channels[j].name != channels[l].name,
    ensures
        add_channel_routes(routes, address, channels, n).dom().finite(),
        add_channel_routes(routes, address, channels, n).dom().len() == routes.dom().len() + n,
    decreases n,
{
    if n > 0 {
        let m = (n - 1) as nat;
        let earlier = add_channel_routes(routes, address, channels, m);
        let key = Address { addr: address, channel: channels[n - 1].name };
        lemma_channel_routes_count(routes, address, channels, m);
        lemma_channel_routes(routes, address, channels, m);
        assert(!earlier.contains_key(key)) by {
            assert(!routes.contains_key(key));
            if exists|j: int| 0 <= j < m && #[trigger] channels[j].name == key.channel {
                let j = choose|j: int| 0 <= j < m && #[trigger] channels[j].name == key.channel;
                assert(channels[j].name != channels[n - 1].name);
            }
        }
    }
}

/// Adding `n` channels whose links are all new adds `n` links.
proof fn lemma_channel_links_count(
    links: Map<u64, Address>,
    address: Seq<u8>,
    channels: Seq<ChannelView>,
    n: nat,
)
    requires
        n <= channels.len(),
        links.dom().finite(),
        forall|j: int| 0 <= j < n ==> !links.contains_key((#[trigger] channels[j]).discord_channel),
        forall|j: int, l: int|
            0 <= j < l < n ==> channels[j].discord_channel != channels[l].discord_channel,
    ensures
        add_channel_links(links, address, channels, n).dom().finite(),
        add_channel_links(links, address, channels, n).dom().len() == links.dom().len() + n,
    decreases n,
{
    if n > 0 {
        let m = (n - 1) as nat;
        let earlier = add_channel_links(links, address, channels, m);
        let key = channels[n - 1].discord_channel;
        lemma_channel_links_count(links, address, channels, m);
        lemma_channel_links(links, address, channels, m);
        assert(!earlier.contains_key(key)) by {
            assert(!links.contains_key(key));
            if exists|j: int| 0 <= j < m && #[trigger] channels[j].discord_channel == key {
                let j = choose|j: int| 0 <= j < m && #[trigger] channels[j].discord_channel == key;
                assert(channels[j].discord_channel != channels[n - 1].discord_channel);
            }
        }
    }
}

/// Where no two configured channels share their network and name, the
/// table towards the relay platform holds exactly one route for each
/// configured channel; where no two are bridged with the same channel of
/// the relay platform, so does the table towards the networks.
pub proof fn lemma_tables_hold_every_channel(servers: Seq<ServerView>, n: nat)
    requires
        n <= servers.len(),
    ensures
        server_routes(servers, n).dom().finite(),
        server_links(servers, n).dom().finite(),
        distinct_addresses(servers) ==> server_routes(servers, n).dom().len() == channel_count(
            servers,
            n,
        ),
        distinct_links(servers) ==> server_links(servers, n).dom().len() == channel_count(
            servers,
            n,
        ),
    decreases n,
{
    if n > 0 {
        let m = (n - 1) as nat;
        let s = servers[n - 1];
        lemma_tables_hold_every_channel(servers, m);
        lemma_routing_domains(servers, m);
        lemma_channel_routes(server_routes(servers, m), s.address, s.channels, s.channels.len());
        lemma_channel_links(server_links(servers, m), s.address, s.channels, s.channels.len());
        lemma_tables_stay_finite(servers, n);
        if distinct_addresses(servers) {
            let routes = server_routes(servers, m);
            assert forall|j: int| 0 <= j < s.channels.len() implies !routes.contains_key(
                Address { addr: s.address, channel: (#[trigger] s.channels[j]).name },
            ) by {
                let a = Address { addr: s.address, channel: s.channels[j].name };
                if configured(servers, m, a) {
                    let (i, k) = choose|i: int, k: int|
                        0 <= i < m && 0 <= k < servers[i].channels.len() && servers[i].address
                            == a.addr && #[trigger] servers[i].channels[k].name == a.channel;
                    assert(channel_address(servers, i, k) == channel_address(servers, n - 1, j));
                }
            }
            assert forall|j: int, l: int| 0 <= j < l < s.channels.len() implies s.channels[j].name
                != s.channels[l].name by {
                assert(channel_address(servers, n - 1, j) != channel_address(servers, n - 1, l));
            }
            lemma_channel_routes_count(routes, s.address, s.channels, s.channels.len());
        }
        if distinct_links(servers) {
            let links = server_links(servers, m);
            assert forall|j: int| 0 <= j < s.channels.len() implies !links.contains_key(
                (#[trigger] s.channels[j]).discord_channel,
            ) by {
                let id = s.channels[j].discord_channel;
                if bridged(servers, m, id) {
                    let (i, k) = choose|i: int, k: int|
                        0 <= i < m && 0 <= k < servers[i].channels.len()
                            && #[trigger] servers[i].channels[k].discord_channel == id;
                    assert(channel_link(servers, i, k) == channel_link(servers, n - 1, j));
                }
            }
            assert forall|j: int, l: int|
                0 <= j < l < s.channels.len() implies s.channels[j].discord_channel
                != s.channels[l].discord_channel by {
                assert(channel_link(servers, n - 1, j) != channel_link(servers, n - 1, l));
            }
            lemma_channel_links_count(links, s.address, s.channels, s.channels.len());
        }
    }
}

/// The two tables hold finitely many routes.
proof fn lemma_tables_stay_finite(servers: Seq<ServerView>, n: nat)
    requires
        n <= servers.len(),
    ensures
        server_routes(servers, n).dom().finite(),
        server_links(servers, n).dom().finite(),
    decreases n,
{
    if n > 0 {
        let m = (n - 1) as nat;
        let s = servers[n - 1];
        lemma_tables_stay_finite(servers, m);
        lemma_added_channels_stay_finite(
            server_routes(servers, m),
            server_links(servers, m),
            s.address,
            s.channels,
            s.channels.len(),
        );
    }
}

/// Adding channels to finite tables leaves them finite.
proof fn lemma_added_channels_stay_finite(
    routes: Map<Address, Target>,
    links: Map<u64, Address>,
    address: Seq<u8>,
    channels: Seq<ChannelView>,
    n: nat,
)
    requires
        n <= channels.len(),
        routes.dom().finite(),
        links.dom().finite(),
    ensures
        add_channel_routes(routes, address, channels, n).dom().finite(),
        add_channel_links(links, address, channels, n).dom().finite(),
    decreases n,
{
    if n > 0 {
        lemma_added_channels_stay_finite(routes, links, address, channels, (n - 1) as nat);
    }
}

/// The table after the first `n` routes depends on those routes only.
pub proof fn lemma_routes_prefix(entries: Seq<Route>, n: nat)
    requires
        n <= entries.len(),
    ensures
        routes_of(entries, n) == routes_of(entries.subrange(0, n as int), n),
    decreases n,
{
    if n > 0 {
        lemma_routes_prefix(entries, (n - 1) as nat);
        lemma_routes_prefix(entries.subrange(0, n as int), (n - 1) as nat);
        assert(entries.subrange(0, n as int).subrange(0, n - 1) =~= entries.subrange(0, n - 1));
    }
}

/// The delivery target that the captured groups of a delivery address
/// denote.
pub fn discord_channel_from_captures(found: &Option<Vec<Option<Vec<u8>>>>) -> (channel: Option<
    DiscordChannel,
>)
    ensures
        match channel {
            Some(c) => target_of_captures(captures_view(*found)) == Some(c@),
            None => target_of_captures(captures_view(*found)) is None,
        },
{
    let groups = match found {
        Some(groups) => groups,
        None => {
            return None;
        },
    };
    let ghost seen = groups_view(groups@);
    let mut webhook_id: u64 = 0;
    if groups.len() > 1 {
        assert(seen[1] == match groups@[1] {
            Some(g) => Some(g@),
            None => None,
        });
        match &groups[1] {
            Some(text) => {
                match parse_u64(text.as_slice()) {
                    Some(n) => {
                        webhook_id = n;
                    },
                    None => {
                        return None;
                    },
                }
            },
            None => {},
        }
    }
    let mut webhook_token: Vec<u8> = Vec::new();
    if groups.len() > 2 {
        assert(seen[2] == match groups@[2] {
            Some(g) => Some(g@),
            None => None,
        });
        match &groups[2] {
            Some(text) => {
                webhook_token = text.clone();
            },
            None => {},
        }
    }
    Some(DiscordChannel { webhook_id, webhook_token })
}

/// The delivery target that a delivery address denotes, if it denotes one.
pub fn webhook_from_url(webhook_url: &[u8]) -> (channel: Option<DiscordChannel>)
    ensures
        match channel {
            Some(c) => webhook_target(webhook_url@) == Some(c@),
            None => webhook_target(webhook_url@) is None,
        },
{
    let found = captures(".+/webhooks/([^/]+)/([^/]+)", webhook_url);
    discord_channel_from_captures(&found)
}

/// The delivery target for a channel of a network, if the table has one.
pub fn find_route<'a>(entries: &'a Vec<Route>, addr: &[u8], channel: &[u8]) -> (target: Option<
    &'a DiscordChannel,
>)
    ensures
        match target {
            Some(t) => {
                &&& routes_view(entries@).contains_key(Address { addr: addr@, channel: channel@ })
                &&& routes_view(entries@)[Address { addr: addr@, channel: channel@ }] == t@
            },
            None => !routes_view(entries@).contains_key(
                Address { addr: addr@, channel: channel@ },
            ),
        },
{
    let ghost key = Address { addr: addr@, channel: channel@ };
    let mut i: usize = entries.len();
    while i > 0
        invariant
            0 <= i <= entries@.len(),
            key == (Address { addr: addr@, channel: channel@ }),
            routes_view(entries@).contains_key(key) <==> routes_of(entries@, i as nat).contains_key(
                key,
            ),
            routes_view(entries@).contains_key(key) ==> routes_view(entries@)[key] == routes_of(
                entries@,
                i as nat,
            )[key],
        decreases i,
    {
        i -= 1;
        let route = &entries[i];
        if bytes_eq(route.server.addr.as_slice(), addr) && bytes_eq(
            route.server.channel.as_slice(),
            channel,
        ) {
            return Some(&route.target);
        }
    }
    None
}

} // verus!

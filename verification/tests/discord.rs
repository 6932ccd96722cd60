use irc_bouncer::config::{IRCChannel, IRCServerConfig};
use irc_bouncer::delivery::{
    after_attempt, rewrite_action, transform_content, Retry, MAX_ATTEMPTS, RETRY_DELAY_MS,
};
use irc_bouncer::discord::{discord_init, Delivery, Handler, RelayEvent};
use irc_bouncer::listener::listener_should_start;
use irc_bouncer::irc::{connect_to_server, Action, LoopEvent};
use irc_bouncer::message::{BouncerMessage, MessageState};
use irc_bouncer::routing::{
    discord_channel_from_captures, find_route, webhook_from_url, DiscordChannel, IRCServer, Route,
};

const NET: &[u8] = b"irc.example.org:6667";

fn channel(name: &[u8], id: u64, url: &[u8]) -> IRCChannel {
    IRCChannel { name: name.to_vec(), discord_channel: id, webhook_url: url.to_vec() }
}

fn server(address: &[u8], channels: Vec<IRCChannel>) -> IRCServerConfig {
    IRCServerConfig {
        address: address.to_vec(),
        tls: false,
        nick: b"bot".to_vec(),
        password: None,
        channels,
    }
}

fn handler() -> Handler {
    discord_init(
        7,
        &vec![
            server(
                NET,
                vec![
                    channel(b"#test", 100, b"https://relay.example/api/webhooks/42/tok"),
                    channel(b"#dev", 101, b"https://relay.example/api/webhooks/43/tik"),
                ],
            ),
            server(
                b"other.example.org:6697",
                vec![channel(b"#test", 200, b"https://relay.example/api/webhooks/44/tak")],
            ),
        ],
    )
    .unwrap()
}

fn incoming(network: &[u8], channel: &[u8], user: &[u8], content: &[u8], ping: bool) -> BouncerMessage {
    BouncerMessage {
        network: network.to_vec(),
        channel: channel.to_vec(),
        user: user.to_vec(),
        content: content.to_vec(),
        state: MessageState::INCOMING,
        ping,
    }
}

fn event(author: u64, channel: u64, content: &[u8]) -> RelayEvent {
    RelayEvent {
        author_id: author,
        channel_id: channel,
        reply_to: None,
        content: content.to_vec(),
        attachments: Vec::new(),
    }
}

fn posted(d: Delivery) -> (DiscordChannel, Vec<u8>, Vec<u8>) {
    match d {
        Delivery::Post { target, username, content } => (target, username, content),
        other => panic!("not posted: {:?}", other),
    }
}

#[test]
fn delivery_address_gives_number_and_token() {
    let c = webhook_from_url(b"https://relay.example/api/webhooks/42/tok").unwrap();
    assert_eq!(c.webhook_id, 42);
    assert_eq!(c.webhook_token, b"tok".to_vec());
}

#[test]
fn delivery_address_takes_the_last_webhooks_part() {
    let c = webhook_from_url(b"x/webhooks/1/a/webhooks/18446744073709551615/T0k-en_").unwrap();
    assert_eq!(c.webhook_id, 18446744073709551615);
    assert_eq!(c.webhook_token, b"T0k-en_".to_vec());
}

#[test]
fn delivery_address_number_may_carry_a_plus() {
    assert_eq!(webhook_from_url(b"x/webhooks/+42/tok").unwrap().webhook_id, 42);
}

#[test]
fn delivery_address_without_target_is_refused() {
    assert!(webhook_from_url(b"https://relay.example/api/42/tok").is_none());
    assert!(webhook_from_url(b"/webhooks/42/tok").is_none());
    assert!(webhook_from_url(b"x/webhooks/42").is_none());
    assert!(webhook_from_url(b"x/webhooks/abc/tok").is_none());
    assert!(webhook_from_url(b"x/webhooks/18446744073709551616/tok").is_none());
    assert!(webhook_from_url(b"").is_none());
}

#[test]
fn captured_groups_denote_a_target() {
    let found = Some(vec![Some(b"whole".to_vec()), Some(b"007".to_vec()), Some(b"t".to_vec())]);
    let c = discord_channel_from_captures(&found).unwrap();
    assert_eq!(c.webhook_id, 7);
    assert_eq!(c.webhook_token, b"t".to_vec());
}

#[test]
fn absent_groups_stand_for_zero_and_empty() {
    let c = discord_channel_from_captures(&Some(vec![Some(b"whole".to_vec())])).unwrap();
    assert_eq!(c.webhook_id, 0);
    assert_eq!(c.webhook_token, Vec::<u8>::new());
    let d = discord_channel_from_captures(&Some(vec![Some(b"w".to_vec()), None, None])).unwrap();
    assert_eq!(d.webhook_id, 0);
    assert_eq!(d.webhook_token, Vec::<u8>::new());
}

#[test]
fn no_match_or_bad_number_denotes_no_target() {
    assert!(discord_channel_from_captures(&None).is_none());
    let found = Some(vec![Some(b"w".to_vec()), Some(b"4x".to_vec()), Some(b"t".to_vec())]);
    assert!(discord_channel_from_captures(&found).is_none());
}

#[test]
fn configured_channels_resolve_both_ways() {
    let h = handler();
    let t = find_route(&h.irc_discord_map, NET, b"#test").unwrap();
    assert_eq!((t.webhook_id, t.webhook_token.clone()), (42, b"tok".to_vec()));
    let t = find_route(&h.irc_discord_map, NET, b"#dev").unwrap();
    assert_eq!((t.webhook_id, t.webhook_token.clone()), (43, b"tik".to_vec()));
    let t = find_route(&h.irc_discord_map, b"other.example.org:6697", b"#test").unwrap();
    assert_eq!((t.webhook_id, t.webhook_token.clone()), (44, b"tak".to_vec()));
    let s = h.discord_irc_map.get(&100).unwrap();
    assert_eq!((s.addr.clone(), s.channel.clone()), (NET.to_vec(), b"#test".to_vec()));
    let s = h.discord_irc_map.get(&101).unwrap();
    assert_eq!((s.addr.clone(), s.channel.clone()), (NET.to_vec(), b"#dev".to_vec()));
    let s = h.discord_irc_map.get(&200).unwrap();
    assert_eq!(s.addr, b"other.example.org:6697".to_vec());
    assert_eq!(h.discord_user_id, 7);
}

#[test]
fn other_channels_are_absent() {
    let h = handler();
    assert!(find_route(&h.irc_discord_map, NET, b"#nope").is_none());
    assert!(find_route(&h.irc_discord_map, b"other.example.org:6697", b"#dev").is_none());
    assert!(find_route(&h.irc_discord_map, b"", b"").is_none());
    assert!(h.discord_irc_map.get(&102).is_none());
    assert_eq!(h.discord_irc_map.len(), 3);
    assert_eq!(h.irc_discord_map.len(), 3);
}

#[test]
fn later_route_replaces_an_earlier_one() {
    let h = discord_init(
        7,
        &vec![server(
            NET,
            vec![
                channel(b"#test", 100, b"x/webhooks/1/a"),
                channel(b"#test", 100, b"x/webhooks/2/b"),
            ],
        )],
    )
    .unwrap();
    assert_eq!(find_route(&h.irc_discord_map, NET, b"#test").unwrap().webhook_id, 2);
    assert_eq!(h.discord_irc_map.len(), 1);
}

#[test]
fn table_lookup_finds_the_last_route() {
    let route = |channel: &[u8], id: u64| Route {
        server: IRCServer { addr: NET.to_vec(), channel: channel.to_vec() },
        target: DiscordChannel { webhook_id: id, webhook_token: Vec::new() },
    };
    let table = vec![route(b"#a", 1), route(b"#b", 2), route(b"#a", 3)];
    assert_eq!(find_route(&table, NET, b"#a").unwrap().webhook_id, 3);
    assert_eq!(find_route(&table, NET, b"#b").unwrap().webhook_id, 2);
    assert!(find_route(&table, NET, b"#c").is_none());
    assert!(find_route(&Vec::new(), NET, b"#a").is_none());
}

#[test]
fn configuration_with_a_bad_delivery_address_is_refused() {
    let servers = vec![server(
        NET,
        vec![channel(b"#test", 100, b"x/webhooks/1/a"), channel(b"#dev", 101, b"nothing here")],
    )];
    assert!(discord_init(7, &servers).is_none());
}

#[test]
fn empty_configuration_gives_empty_tables() {
    let h = discord_init(7, &Vec::new()).unwrap();
    assert!(h.irc_discord_map.is_empty());
    assert!(h.discord_irc_map.is_empty());
}

#[test]
fn owner_message_is_published_towards_the_network() {
    let h = handler();
    let m = h.message(&event(7, 101, b"hello")).unwrap();
    assert_eq!(m.network, NET.to_vec());
    assert_eq!(m.channel, b"#dev".to_vec());
    assert_eq!(m.user, Vec::<u8>::new());
    assert_eq!(m.content, b"hello".to_vec());
    assert_eq!(m.state, MessageState::OUTGOING);
    assert!(!m.ping);
}

#[test]
fn reply_and_attachments_are_flattened() {
    let h = handler();
    let e = RelayEvent {
        author_id: 7,
        channel_id: 100,
        reply_to: Some(b"alice".to_vec()),
        content: b" look".to_vec(),
        attachments: vec![b"https://a/1.png".to_vec(), b"https://a/2.png".to_vec()],
    };
    let m = h.message(&e).unwrap();
    assert_eq!(m.content, b"alice: look https://a/1.png https://a/2.png".to_vec());
}

#[test]
fn message_of_another_author_is_not_forwarded() {
    let h = handler();
    assert!(h.message(&event(8, 100, b"hello")).is_none());
    assert!(h.is_owner(7));
    assert!(!h.is_owner(8));
}

#[test]
fn message_in_an_unbridged_channel_is_not_forwarded() {
    let h = handler();
    assert!(h.message(&event(7, 999, b"hello")).is_none());
}

#[test]
fn incoming_message_is_posted_to_its_target() {
    let h = handler();
    let (target, username, content) =
        posted(h.deliver(&incoming(NET, b"#test", b"alice", b"hello world", false)));
    assert_eq!(target.webhook_id, 42);
    assert_eq!(target.webhook_token, b"tok".to_vec());
    assert_eq!(username, b"alice".to_vec());
    assert_eq!(content, b"hello world".to_vec());
}

#[test]
fn line_from_the_network_reaches_the_delivery_call() {
    let h = handler();
    let mut s = connect_to_server(NET.to_vec(), b"bot".to_vec(), Vec::new(), false).0;
    s.connect(&vec![b"#test".to_vec()]).unwrap();
    let mut actions = s
        .do_main_loop(LoopEvent::Line(b":alice!a@h PRIVMSG #test :hello world\r\n".to_vec()))
        .unwrap();
    assert_eq!(actions.len(), 1);
    let m = match actions.pop().unwrap() {
        Action::Publish(m) => m,
        other => panic!("not published: {:?}", other),
    };
    let (target, username, content) = posted(h.deliver(&m));
    assert_eq!((target.webhook_id, target.webhook_token), (42, b"tok".to_vec()));
    assert_eq!(username, b"alice".to_vec());
    assert_eq!(content, b"hello world".to_vec());
}

#[test]
fn mention_puts_the_owner_in_front() {
    let h = handler();
    let (_, _, content) = posted(h.deliver(&incoming(NET, b"#test", b"alice", b"hi bot", true)));
    assert_eq!(content, b"<@7> hi bot".to_vec());
}

#[test]
fn action_becomes_an_emphasis() {
    let h = handler();
    let (_, _, content) =
        posted(h.deliver(&incoming(NET, b"#test", b"alice", b"\x01ACTION waves at bot\x01", false)));
    assert_eq!(content, b"*waves at bot*".to_vec());
    let (_, _, both) =
        posted(h.deliver(&incoming(NET, b"#test", b"alice", b"\x01ACTION  waves \x01", true)));
    assert_eq!(both, b"<@7> *waves*".to_vec());
}

#[test]
fn action_replaces_the_text_around_it() {
    let h = handler();
    let (_, _, content) =
        posted(h.deliver(&incoming(NET, b"#test", b"a", b"before \x01ACTION nods\x01 after", false)));
    assert_eq!(content, b"*nods*".to_vec());
}

#[test]
fn text_without_a_whole_action_stays() {
    let h = handler();
    for text in [&b"\x01ACTION\x01"[..], b"\x01ACTION waves", b"ACTION waves", b"\x01VERSION\x01"] {
        let (_, _, content) = posted(h.deliver(&incoming(NET, b"#test", b"a", text, false)));
        assert_eq!(content, text.to_vec());
    }
}

#[test]
fn message_from_an_unexpected_channel_is_dropped() {
    let h = handler();
    assert!(matches!(
        h.deliver(&incoming(NET, b"#nope", b"alice", b"hi", false)),
        Delivery::UnexpectedChannel
    ));
    assert!(matches!(
        h.deliver(&incoming(b"nowhere", b"#test", b"alice", b"hi", false)),
        Delivery::UnexpectedChannel
    ));
}

#[test]
fn outgoing_message_is_not_delivered() {
    let h = handler();
    let mut m = incoming(NET, b"#test", b"", b"hi", false);
    m.state = MessageState::OUTGOING;
    assert!(matches!(h.deliver(&m), Delivery::Ignored));
}

#[test]
fn plan_follows_the_groups_it_is_given() {
    let h = handler();
    let m = incoming(NET, b"#test", b"alice", b"text", false);
    let found = Some(vec![Some(b"whole".to_vec()), Some(b"\t jumps \n".to_vec())]);
    let (_, _, content) = posted(h.plan_delivery(&m, &found));
    assert_eq!(content, b"*jumps*".to_vec());
    let (_, _, kept) = posted(h.plan_delivery(&m, &Some(vec![Some(b"whole".to_vec()), None])));
    assert_eq!(kept, b"text".to_vec());
    let (_, _, none) = posted(h.plan_delivery(&m, &None));
    assert_eq!(none, b"text".to_vec());
}

#[test]
fn rewrite_and_transform_agree_with_their_parts() {
    let found = Some(vec![Some(b"w".to_vec()), Some(b" a b ".to_vec())]);
    assert_eq!(rewrite_action(b"x".to_vec(), &found), b"*a b*".to_vec());
    assert_eq!(rewrite_action(b"x".to_vec(), &None), b"x".to_vec());
    assert_eq!(rewrite_action(b"x".to_vec(), &Some(Vec::new())), b"x".to_vec());
    assert_eq!(transform_content(b"x".to_vec(), true, 0, &None), b"<@0> x".to_vec());
    assert_eq!(
        transform_content(b"x".to_vec(), true, 18446744073709551615, &None),
        b"<@18446744073709551615> x".to_vec()
    );
    assert_eq!(transform_content(b"x".to_vec(), false, 5, &found), b"*a b*".to_vec());
}

#[test]
fn three_failures_drop_the_message() {
    let mut failures = 0;
    let mut calls = 0;
    let mut waited = 0;
    let dropped = loop {
        calls += 1;
        match after_attempt(failures, false) {
            Retry::Done => break false,
            Retry::Again { failures: f, wait_ms } => {
                failures = f;
                waited += wait_ms;
            }
            Retry::GiveUp { wait_ms } => {
                waited += wait_ms;
                break true;
            }
        }
    };
    assert!(dropped);
    assert_eq!(calls, 3);
    assert_eq!(waited, 300);
}

#[test]
fn retry_steps_are_exact() {
    assert_eq!(MAX_ATTEMPTS, 3);
    assert_eq!(RETRY_DELAY_MS, 100);
    assert_eq!(after_attempt(0, true), Retry::Done);
    assert_eq!(after_attempt(2, true), Retry::Done);
    assert_eq!(after_attempt(0, false), Retry::Again { failures: 1, wait_ms: 100 });
    assert_eq!(after_attempt(1, false), Retry::Again { failures: 2, wait_ms: 100 });
    assert_eq!(after_attempt(2, false), Retry::GiveUp { wait_ms: 100 });
    assert_eq!(after_attempt(3, false), Retry::GiveUp { wait_ms: 100 });
    assert_eq!(after_attempt(u32::MAX, false), Retry::GiveUp { wait_ms: 100 });
}

#[test]
fn second_attempt_may_succeed() {
    assert_eq!(after_attempt(0, false), Retry::Again { failures: 1, wait_ms: 100 });
    assert_eq!(after_attempt(1, true), Retry::Done);
}

#[test]
fn listener_starts_once() {
    let h = handler();
    assert!(h.cache_ready());
    assert!(!h.cache_ready());
    assert!(!h.cache_ready());
}

#[test]
fn only_the_exchange_that_took_place_starts_the_listener() {
    assert!(listener_should_start(Ok(false)));
    assert!(!listener_should_start(Err(true)));
}

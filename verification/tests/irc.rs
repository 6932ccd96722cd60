use irc_bouncer::error::IRCError;
use irc_bouncer::irc::{
    connect_to_server, credential_frame_of, process_outgoing_messages, sasl_plain, Action,
    AuthStage, ConnectionState, IRCSocket, LoopEvent,
};
use irc_bouncer::message::{BouncerMessage, MessageState};

const NET: &[u8] = b"irc.example.org:6667";

fn socket(password: &[u8]) -> IRCSocket {
    connect_to_server(NET.to_vec(), b"bot".to_vec(), password.to_vec(), false).0
}

fn active() -> IRCSocket {
    let mut s = socket(b"");
    s.connect(&vec![b"#test".to_vec()]).unwrap();
    s
}

fn outgoing(network: &[u8], channel: &[u8], content: &[u8]) -> BouncerMessage {
    BouncerMessage {
        network: network.to_vec(),
        channel: channel.to_vec(),
        user: Vec::new(),
        content: content.to_vec(),
        state: MessageState::OUTGOING,
        ping: false,
    }
}

fn sent(actions: Vec<Action>) -> Vec<Vec<u8>> {
    actions
        .into_iter()
        .map(|a| match a {
            Action::Send(frame) => frame,
            other => panic!("not a frame: {:?}", other),
        })
        .collect()
}

#[test]
fn plan_without_encryption_names_no_host() {
    let (s, host) = connect_to_server(NET.to_vec(), b"bot".to_vec(), b"pw".to_vec(), false);
    assert_eq!(host, None);
    assert_eq!(s.addr, NET.to_vec());
    assert_eq!(s.nick, b"bot".to_vec());
    assert_eq!(s.password, b"pw".to_vec());
    assert!(!s.tls);
    assert_eq!(s.state, ConnectionState::Connecting);
}

#[test]
fn plan_with_encryption_names_the_host() {
    let (s, host) = connect_to_server(NET.to_vec(), b"bot".to_vec(), Vec::new(), true);
    assert_eq!(host, Some(b"irc.example.org".to_vec()));
    assert!(s.tls);
    let (_, whole) = connect_to_server(b"localhost".to_vec(), b"bot".to_vec(), Vec::new(), true);
    assert_eq!(whole, Some(b"localhost".to_vec()));
}

#[test]
fn handshake_without_secret() {
    let mut s = socket(b"");
    let frames = s.connect(&vec![b"#test".to_vec(), b"#other".to_vec()]).unwrap();
    assert_eq!(
        frames,
        vec![
            b"NICK bot\r\n".to_vec(),
            b"USER bot 8 * : bot\r\n".to_vec(),
            b"JOIN #test\r\n".to_vec(),
            b"JOIN #other\r\n".to_vec(),
        ]
    );
    assert_eq!(s.state, ConnectionState::Active);
}

fn line(text: &[u8]) -> LoopEvent {
    let mut raw = text.to_vec();
    raw.extend_from_slice(b"\r\n");
    LoopEvent::Line(raw)
}

fn waiting(password: &[u8], channels: &Vec<Vec<u8>>, stage: AuthStage) -> IRCSocket {
    let mut s = socket(password);
    s.connect(channels).unwrap();
    if stage != AuthStage::Capability {
        s.authenticate(line(b":server CAP * ACK :sasl"), channels).unwrap();
    }
    if stage == AuthStage::Credentials {
        s.authenticate(line(b"AUTHENTICATE +"), channels).unwrap();
    }
    assert_eq!(s.state, ConnectionState::Authenticating(stage));
    s
}

#[test]
fn handshake_with_secret_stops_at_the_request() {
    let mut s = socket(b"secret");
    let frames = s.connect(&vec![b"#test".to_vec()]).unwrap();
    assert_eq!(
        frames,
        vec![
            b"NICK bot\r\n".to_vec(),
            b"USER bot 8 * : bot\r\n".to_vec(),
            b"CAP REQ :sasl\r\n".to_vec(),
        ]
    );
    assert_eq!(s.state, ConnectionState::Authenticating(AuthStage::Capability));
    assert_eq!(s.connect(&vec![b"#test".to_vec()]).unwrap(), Vec::<Vec<u8>>::new());
    assert_eq!(s.state, ConnectionState::Authenticating(AuthStage::Capability));
}

#[test]
fn handshake_with_secret_follows_the_answers() {
    let channels = vec![b"#test".to_vec(), b"#dev".to_vec()];
    let mut s = socket(b"secret");
    s.connect(&channels).unwrap();
    assert_eq!(
        s.authenticate(line(b":server CAP * ACK :sasl"), &channels).unwrap(),
        vec![b"AUTHENTICATE PLAIN\r\n".to_vec()]
    );
    assert_eq!(s.state, ConnectionState::Authenticating(AuthStage::Mechanism));
    assert_eq!(
        s.authenticate(line(b"AUTHENTICATE +"), &channels).unwrap(),
        vec![b"AUTHENTICATE Ym90AGJvdABzZWNyZXQA\r\n".to_vec()]
    );
    assert_eq!(s.state, ConnectionState::Authenticating(AuthStage::Credentials));
    assert!(s
        .authenticate(line(b":server 900 bot bot!b@h bot :You are now logged in as bot"), &channels)
        .unwrap()
        .is_empty());
    assert_eq!(s.state, ConnectionState::Authenticating(AuthStage::Credentials));
    assert_eq!(
        s.authenticate(line(b":server 903 bot :SASL authentication successful"), &channels)
            .unwrap(),
        vec![b"CAP END\r\n".to_vec(), b"JOIN #test\r\n".to_vec(), b"JOIN #dev\r\n".to_vec()]
    );
    assert_eq!(s.state, ConnectionState::Active);
}

#[test]
fn refused_capability_is_fatal() {
    let channels = vec![b"#test".to_vec()];
    let mut s = waiting(b"secret", &channels, AuthStage::Capability);
    assert_eq!(
        s.authenticate(line(b":server CAP * NAK :sasl"), &channels),
        Err(IRCError::AuthenticationFailed)
    );
    assert_eq!(s.state, ConnectionState::Closed);
    assert_eq!(s.connect(&channels), Err(IRCError::Closed));
}

#[test]
fn refused_credentials_are_fatal() {
    let channels = vec![b"#test".to_vec()];
    for numeric in ["902", "904", "905", "906", "907"] {
        let mut s = waiting(b"secret", &channels, AuthStage::Credentials);
        let answer = format!(":server {} bot :SASL authentication failed", numeric);
        assert_eq!(
            s.authenticate(line(answer.as_bytes()), &channels),
            Err(IRCError::AuthenticationFailed)
        );
        assert_eq!(s.state, ConnectionState::Closed);
    }
}

#[test]
fn refusal_is_fatal_whatever_is_awaited() {
    let channels = vec![b"#test".to_vec()];
    for stage in [AuthStage::Capability, AuthStage::Mechanism, AuthStage::Credentials] {
        let mut s = waiting(b"secret", &channels, stage);
        assert_eq!(
            s.authenticate(line(b":server 904 bot :SASL authentication failed"), &channels),
            Err(IRCError::AuthenticationFailed)
        );
        assert_eq!(s.state, ConnectionState::Closed);
    }
}

#[test]
fn stream_that_ends_during_authentication_is_fatal() {
    let channels = vec![b"#test".to_vec()];
    for stage in [AuthStage::Capability, AuthStage::Mechanism, AuthStage::Credentials] {
        let mut s = waiting(b"secret", &channels, stage);
        assert_eq!(
            s.authenticate(LoopEvent::Line(Vec::new()), &channels),
            Err(IRCError::StreamClosed)
        );
        assert_eq!(s.state, ConnectionState::Closed);
        let mut t = waiting(b"secret", &channels, stage);
        assert_eq!(s.state, ConnectionState::Closed);
        assert_eq!(t.authenticate(LoopEvent::TransportError, &channels), Err(IRCError::Transport));
        assert_eq!(t.state, ConnectionState::Closed);
    }
}

#[test]
fn line_without_token_during_authentication_is_fatal() {
    let channels = vec![b"#test".to_vec()];
    let mut s = waiting(b"secret", &channels, AuthStage::Capability);
    assert_eq!(s.authenticate(line(b""), &channels), Err(IRCError::EmptyLine));
    assert_eq!(s.state, ConnectionState::Closed);
}

#[test]
fn answer_that_is_not_awaited_changes_nothing() {
    let channels = vec![b"#test".to_vec()];
    let mut s = waiting(b"secret", &channels, AuthStage::Capability);
    for text in [
        &b":server 903 bot :SASL authentication successful"[..],
        b"AUTHENTICATE +",
        b":server NOTICE * :*** Looking up your hostname",
        b":server CAP * LS :sasl multi-prefix",
        b":server CAP *",
        b":server 908 bot PLAIN,EXTERNAL :are available SASL mechanisms",
        b"AUTHENTICATE",
        b"PING",
        b":server",
    ] {
        assert!(s.authenticate(line(text), &channels).unwrap().is_empty());
        assert_eq!(s.state, ConnectionState::Authenticating(AuthStage::Capability));
    }
    let mut t = waiting(b"secret", &channels, AuthStage::Credentials);
    assert!(t.authenticate(line(b":server CAP * ACK :sasl"), &channels).unwrap().is_empty());
    assert_eq!(t.state, ConnectionState::Authenticating(AuthStage::Credentials));
}

#[test]
fn keepalive_during_authentication_is_answered() {
    let channels = vec![b"#test".to_vec()];
    let mut s = waiting(b"secret", &channels, AuthStage::Mechanism);
    assert_eq!(
        s.authenticate(line(b"PING :abc123"), &channels).unwrap(),
        vec![b"PONG :abc123\r\n".to_vec()]
    );
    assert_eq!(
        s.authenticate(line(b":server PING token"), &channels).unwrap(),
        vec![b"PONG token\r\n".to_vec()]
    );
    assert_eq!(s.state, ConnectionState::Authenticating(AuthStage::Mechanism));
    let mut long = b"PING ".to_vec();
    long.extend_from_slice(&vec![b'x'; 506]);
    assert_eq!(s.authenticate(line(&long), &channels), Err(IRCError::MessageTooLong));
    assert_eq!(s.state, ConnectionState::Closed);
}

#[test]
fn bus_message_during_authentication_is_not_forwarded() {
    let channels = vec![b"#test".to_vec()];
    let mut s = waiting(b"secret", &channels, AuthStage::Capability);
    assert!(s
        .authenticate(LoopEvent::Bus(outgoing(NET, b"#test", b"hi")), &channels)
        .unwrap()
        .is_empty());
    assert_eq!(s.state, ConnectionState::Authenticating(AuthStage::Capability));
    assert!(matches!(
        s.do_main_loop(LoopEvent::Bus(outgoing(NET, b"#test", b"hi"))),
        Err(IRCError::NotActive)
    ));
}

#[test]
fn connection_that_is_not_authenticating_takes_no_answer() {
    let channels = vec![b"#test".to_vec()];
    let mut s = socket(b"secret");
    assert_eq!(
        s.authenticate(line(b":server CAP * ACK :sasl"), &channels),
        Err(IRCError::NotAuthenticating)
    );
    assert_eq!(s.state, ConnectionState::Connecting);
    let mut a = active();
    assert_eq!(
        a.authenticate(line(b":server 903 bot :ok"), &channels),
        Err(IRCError::NotAuthenticating)
    );
    assert_eq!(a.state, ConnectionState::Active);
}

#[test]
fn handshake_step_by_step() {
    let channels = vec![b"#test".to_vec()];
    let mut s = socket(b"secret");
    assert_eq!(s.advance(&channels).unwrap().len(), 2);
    assert_eq!(s.state, ConnectionState::Registering);
    assert_eq!(s.advance(&channels).unwrap(), vec![b"CAP REQ :sasl\r\n".to_vec()]);
    assert_eq!(s.state, ConnectionState::Authenticating(AuthStage::Capability));
    assert!(s.advance(&channels).unwrap().is_empty());
    assert_eq!(s.state, ConnectionState::Authenticating(AuthStage::Capability));
    let mut a = active();
    assert!(a.advance(&channels).unwrap().is_empty());
    assert_eq!(a.state, ConnectionState::Active);
}

#[test]
fn handshake_without_secret_skips_authentication() {
    let channels = vec![b"#test".to_vec()];
    let mut s = socket(b"");
    s.advance(&channels).unwrap();
    assert_eq!(s.state, ConnectionState::Registering);
    assert_eq!(s.advance(&channels).unwrap(), vec![b"JOIN #test\r\n".to_vec()]);
    assert_eq!(s.state, ConnectionState::Joining);
    assert!(s.advance(&channels).unwrap().is_empty());
    assert_eq!(s.state, ConnectionState::Active);
}

#[test]
fn handshake_resumes_from_where_it_stands() {
    let channels = vec![b"#test".to_vec()];
    let mut s = socket(b"");
    s.advance(&channels).unwrap();
    assert_eq!(s.connect(&channels).unwrap(), vec![b"JOIN #test\r\n".to_vec()]);
    assert_eq!(s.connect(&channels).unwrap(), Vec::<Vec<u8>>::new());
    assert_eq!(s.state, ConnectionState::Active);
}

#[test]
fn nick_too_long_closes_the_connection() {
    let mut s = connect_to_server(NET.to_vec(), vec![b'n'; 250], Vec::new(), false).0;
    assert_eq!(s.connect(&Vec::new()), Err(IRCError::MessageTooLong));
    assert_eq!(s.state, ConnectionState::Closed);
    let mut fits = connect_to_server(NET.to_vec(), vec![b'n'; 249], Vec::new(), false).0;
    let frames = fits.connect(&Vec::new()).unwrap();
    assert_eq!(frames[1].len(), 512);
}

#[test]
fn secret_too_long_closes_the_connection() {
    // 3 + 3 + 364 + 3 = 373 bytes encode to 500 characters: 515 bytes of frame
    let channels: Vec<Vec<u8>> = Vec::new();
    let mut s = connect_to_server(NET.to_vec(), b"bot".to_vec(), vec![b'p'; 364], false).0;
    assert_eq!(s.connect(&channels).unwrap().len(), 3);
    s.authenticate(line(b":server CAP * ACK :sasl"), &channels).unwrap();
    assert_eq!(s.authenticate(line(b"AUTHENTICATE +"), &channels), Err(IRCError::MessageTooLong));
    assert_eq!(s.state, ConnectionState::Closed);
    // 372 bytes encode to 496 characters: 511 bytes of frame
    let mut fits = connect_to_server(NET.to_vec(), b"bot".to_vec(), vec![b'p'; 363], false).0;
    fits.connect(&channels).unwrap();
    fits.authenticate(line(b":server CAP * ACK :sasl"), &channels).unwrap();
    let frames = fits.authenticate(line(b"AUTHENTICATE +"), &channels).unwrap();
    assert_eq!(frames[0].len(), 511);
    let mut huge = connect_to_server(NET.to_vec(), b"bot".to_vec(), vec![b'p'; 5000], false).0;
    huge.connect(&channels).unwrap();
    huge.authenticate(line(b":server CAP * ACK :sasl"), &channels).unwrap();
    assert_eq!(huge.authenticate(line(b"AUTHENTICATE +"), &channels), Err(IRCError::MessageTooLong));
}

#[test]
fn channel_too_long_after_acceptance_closes_the_connection() {
    let channels = vec![vec![b'#'; 506]];
    let mut s = waiting(b"secret", &channels, AuthStage::Credentials);
    assert_eq!(
        s.authenticate(line(b":server 903 bot :SASL authentication successful"), &channels),
        Err(IRCError::MessageTooLong)
    );
    assert_eq!(s.state, ConnectionState::Closed);
}

#[test]
fn secret_is_framed_once_it_is_encoded() {
    assert_eq!(sasl_plain(b"bot", b"secret"), b"bot\0bot\0secret\0".to_vec());
    assert_eq!(credential_frame_of(b"abcd"), Some(b"AUTHENTICATE abcd\r\n".to_vec()));
    assert_eq!(credential_frame_of(&vec![b'a'; 497]).unwrap().len(), 512);
    assert_eq!(credential_frame_of(&vec![b'a'; 498]), None);
}

#[test]
fn channel_too_long_closes_the_connection() {
    let mut s = socket(b"");
    assert_eq!(s.connect(&vec![b"#ok".to_vec(), vec![b'#'; 506]]), Err(IRCError::MessageTooLong));
    assert_eq!(s.state, ConnectionState::Closed);
    let mut fits = socket(b"");
    assert_eq!(fits.connect(&vec![vec![b'#'; 505]]).unwrap()[2].len(), 512);
}

#[test]
fn closed_connection_does_not_connect() {
    let mut s = socket(b"");
    s.state = ConnectionState::Closed;
    assert_eq!(s.connect(&Vec::new()), Err(IRCError::Closed));
    assert_eq!(s.state, ConnectionState::Closed);
    assert!(s.advance(&Vec::new()).unwrap().is_empty());
    assert_eq!(s.state, ConnectionState::Closed);
}

#[test]
fn ping_is_answered_with_one_pong() {
    let mut s = active();
    let frames = sent(s.do_main_loop(LoopEvent::Line(b"PING :abc123\r\n".to_vec())).unwrap());
    assert_eq!(frames, vec![b"PONG :abc123\r\n".to_vec()]);
    assert_eq!(s.state, ConnectionState::Active);
}

#[test]
fn pong_over_the_limit_closes_the_connection() {
    let mut s = active();
    let mut line = b"PING ".to_vec();
    line.extend_from_slice(&vec![b'x'; 506]);
    line.extend_from_slice(b"\r\n");
    assert!(matches!(s.do_main_loop(LoopEvent::Line(line)), Err(IRCError::MessageTooLong)));
    assert_eq!(s.state, ConnectionState::Closed);
}

#[test]
fn privmsg_is_published() {
    let mut s = active();
    let actions = s
        .do_main_loop(LoopEvent::Line(b":alice!a@h PRIVMSG #test :hello world\r\n".to_vec()))
        .unwrap();
    assert_eq!(actions.len(), 1);
    match &actions[0] {
        Action::Publish(m) => {
            assert_eq!(m.network, NET.to_vec());
            assert_eq!(m.channel, b"#test".to_vec());
            assert_eq!(m.user, b"alice".to_vec());
            assert_eq!(m.content, b"hello world".to_vec());
            assert_eq!(m.state, MessageState::INCOMING);
            assert!(!m.ping);
        }
        other => panic!("not published: {:?}", other),
    }
}

#[test]
fn other_line_is_logged() {
    let mut s = active();
    let actions = s.do_main_loop(LoopEvent::Line(b":server 001 bot :Welcome\r\n".to_vec())).unwrap();
    assert_eq!(actions.len(), 1);
    assert!(matches!(&actions[0], Action::Log(line) if line == b":server 001 bot :Welcome"));
    assert_eq!(s.state, ConnectionState::Active);
}

#[test]
fn decode_error_closes_the_connection() {
    let mut s = active();
    assert!(matches!(
        s.do_main_loop(LoopEvent::Line(b":server PRIVMSG #test :hi\r\n".to_vec())),
        Err(IRCError::UnknownOrigin)
    ));
    assert_eq!(s.state, ConnectionState::Closed);
    assert!(matches!(
        s.do_main_loop(LoopEvent::Line(b"PING :x\r\n".to_vec())),
        Err(IRCError::NotActive)
    ));
}

#[test]
fn end_of_stream_closes_the_connection() {
    let mut s = active();
    assert!(matches!(s.do_main_loop(LoopEvent::Line(Vec::new())), Err(IRCError::StreamClosed)));
    assert_eq!(s.state, ConnectionState::Closed);
}

#[test]
fn empty_line_closes_the_connection() {
    let mut s = active();
    assert!(matches!(s.do_main_loop(LoopEvent::Line(b"\r\n".to_vec())), Err(IRCError::EmptyLine)));
    assert_eq!(s.state, ConnectionState::Closed);
}

#[test]
fn transport_error_closes_the_connection() {
    let mut s = active();
    assert!(matches!(s.do_main_loop(LoopEvent::TransportError), Err(IRCError::Transport)));
    assert_eq!(s.state, ConnectionState::Closed);
}

#[test]
fn connection_that_is_not_active_handles_nothing() {
    let mut s = socket(b"");
    assert!(matches!(
        s.do_main_loop(LoopEvent::Line(b"PING :x\r\n".to_vec())),
        Err(IRCError::NotActive)
    ));
    assert_eq!(s.state, ConnectionState::Connecting);
}

#[test]
fn outgoing_message_is_written_as_privmsg() {
    let mut s = active();
    let frames = sent(s.do_main_loop(LoopEvent::Bus(outgoing(NET, b"#test", b"hi\nthere"))).unwrap());
    assert_eq!(frames, vec![b"PRIVMSG #test :hi there\r\n".to_vec()]);
}

#[test]
fn long_outgoing_message_is_written_in_order() {
    let mut s = active();
    let text: Vec<u8> = (0..1000u32).map(|i| b'0' + (i % 10) as u8).collect();
    let frames = sent(s.do_main_loop(LoopEvent::Bus(outgoing(NET, b"#test", &text))).unwrap());
    assert!(frames.len() > 1);
    let mut joined: Vec<u8> = Vec::new();
    for frame in &frames {
        assert!(frame.len() <= 446);
        assert!(frame.starts_with(b"PRIVMSG #test :"));
        assert!(frame.ends_with(b"\r\n"));
        joined.extend_from_slice(&frame[15..frame.len() - 2]);
    }
    assert_eq!(joined, text);
    assert_eq!(s.state, ConnectionState::Active);
}

#[test]
fn message_for_another_network_is_left_alone() {
    let mut s = active();
    let actions = s.do_main_loop(LoopEvent::Bus(outgoing(b"other:6667", b"#test", b"hi"))).unwrap();
    assert!(actions.is_empty());
}

#[test]
fn incoming_message_on_the_bus_is_left_alone() {
    let mut s = active();
    let mut m = outgoing(NET, b"#test", b"hi");
    m.state = MessageState::INCOMING;
    assert!(s.do_main_loop(LoopEvent::Bus(m)).unwrap().is_empty());
}

#[test]
fn channel_without_room_closes_the_connection() {
    let mut s = active();
    let channel = vec![b'#'; 434];
    assert!(matches!(
        s.do_main_loop(LoopEvent::Bus(outgoing(NET, &channel, b"hi"))),
        Err(IRCError::NoRoom)
    ));
    assert_eq!(s.state, ConnectionState::Closed);
}

#[test]
fn filter_keeps_outgoing_messages_of_the_network() {
    assert!(process_outgoing_messages(outgoing(NET, b"#a", b"x"), NET).is_some());
    assert!(process_outgoing_messages(outgoing(b"other", b"#a", b"x"), NET).is_none());
    let mut m = outgoing(NET, b"#a", b"x");
    m.state = MessageState::INCOMING;
    assert!(process_outgoing_messages(m, NET).is_none());
    let kept = process_outgoing_messages(outgoing(NET, b"#a", b"text"), NET).unwrap();
    assert_eq!(kept.content, b"text".to_vec());
    assert_eq!(kept.channel, b"#a".to_vec());
}

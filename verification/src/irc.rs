//! One connection to a network: its lifecycle from the first frame of the
//! handshake to the steady state, and what it does with each event there.
//! Nothing here touches a transport. The caller writes the frames that come
//! out and hands in what it read.

use crate::codec::{
    budget, crlf, encode_privmsg, is_frame, lemma_segmentation, lemma_strip_undoes_framing,
    lines_of, privmsg_frames, privmsg_prefix, receive_incoming_data, send_raw, strip_terminator,
    EFFECTIVE_CEILING, HARD_CEILING,
};
use crate::error::IRCError;
use crate::message::{BouncerMessage, MessageState, MessageView};
use crate::outside::{base64_encode, base64_len, base64_text};
use crate::parse::{
    answer_of, lemma_ping_asks_for_pong, parse_line, read_answer, read_line, Answer, AnswerView,
    Inbound, InboundView,
};
use crate::text::{ascii, ascii_bytes, before, bytes_eq, find_byte, COLON, SPACE};
use vstd::prelude::*;
use vstd::slice::{slice_subrange, slice_to_vec};
use vstd::string::*;

verus! {

/// Which answer of the server an authenticating connection waits for.
#[derive(Debug, PartialEq, Eq, Structural, Clone, Copy)]
pub enum AuthStage {
    /// The capability has been asked for.
    Capability,
    /// The mechanism has been named.
    Mechanism,
    /// The credentials have been presented.
    Credentials,
}

/// Where a connection stands in its lifecycle.
#[derive(Debug, PartialEq, Eq, Structural, Clone, Copy)]
pub enum ConnectionState {
    /// The transport is being opened; no protocol byte has been sent.
    Connecting,
    /// The frames that declare the identity are out.
    Registering,
    /// A request of the authentication is out and its answer is awaited.
    Authenticating(AuthStage),
    /// The frames that join the channels are out.
    Joining,
    /// The steady state: lines come in, messages go out.
    Active,
    /// The end. Nothing leaves this state.
    Closed,
}

/// One connection: the server it talks to, the identity it registers, and
/// where it stands.
#[derive(Debug)]
pub struct IRCSocket {
    /// The server, as `host:port`.
    pub addr: Vec<u8>,
    /// Whether the transport is encrypted.
    pub tls: bool,
    /// The nickname to register.
    pub nick: Vec<u8>,
    /// The secret to authenticate with; empty when there is none.
    pub password: Vec<u8>,
    /// Where the connection stands.
    pub state: ConnectionState,
}

/// What an `IRCSocket` holds.
pub struct SocketView {
    pub addr: Seq<u8>,
    pub tls: bool,
    pub nick: Seq<u8>,
    pub password: Seq<u8>,
    pub state: ConnectionState,
}

impl View for IRCSocket {
    type V = SocketView;

    open spec fn view(&self) -> SocketView {
        SocketView {
            addr: self.addr@,
            tls: self.tls,
            nick: self.nick@,
            password: self.password@,
            state: self.state,
        }
    }
}

/// What the transport or the bus hands to an active connection.
#[derive(Debug)]
pub enum LoopEvent {
    /// A message seen on the bus.
    Bus(BouncerMessage),
    /// One read from the stream: a line with its terminator, or nothing when
    /// the stream has ended.
    Line(Vec<u8>),
    /// The transport failed.
    TransportError,
}

/// What a `LoopEvent` holds.
pub enum LoopEventView {
    Bus(MessageView),
    Line(Seq<u8>),
    TransportError,
}

impl View for LoopEvent {
    type V = LoopEventView;

    open spec fn view(&self) -> LoopEventView {
        match self {
            LoopEvent::Bus(m) => LoopEventView::Bus(m@),
            LoopEvent::Line(raw) => LoopEventView::Line(raw@),
            LoopEvent::TransportError => LoopEventView::TransportError,
        }
    }
}

/// What the caller is to do for the connection.
#[derive(Debug)]
pub enum Action {
    /// Write this frame to the transport.
    Send(Vec<u8>),
    /// Publish this message on the bus.
    Publish(BouncerMessage),
    /// Show this line to the operator.
    Log(Vec<u8>),
}

/// What an `Action` holds.
pub enum ActionView {
    Send(Seq<u8>),
    Publish(MessageView),
    Log(Seq<u8>),
}

impl View for Action {
    type V = ActionView;

    open spec fn view(&self) -> ActionView {
        match self {
            Action::Send(frame) => ActionView::Send(frame@),
            Action::Publish(m) => ActionView::Publish(m@),
            Action::Log(line) => ActionView::Log(line@),
        }
    }
}

/// What a list of actions holds.
pub open spec fn actions_of(actions: Seq<Action>) -> Seq<ActionView> {
    Seq::new(actions.len(), |i: int| actions[i]@)
}

/// The state that follows `state` without an answer of the server. A
/// connection that is authenticating stays where it is: only an answer moves
/// it.
pub open spec fn next_phase(state: ConnectionState, has_secret: bool) -> ConnectionState {
    match state {
        ConnectionState::Connecting => ConnectionState::Registering,
        ConnectionState::Registering => if has_secret {
            ConnectionState::Authenticating(AuthStage::Capability)
        } else {
            ConnectionState::Joining
        },
        ConnectionState::Joining => ConnectionState::Active,
        _ => state,
    }
}

/// How many steps `state` can take without an answer of the server.
pub open spec fn steps_left(state: ConnectionState) -> nat {
    match state {
        ConnectionState::Connecting => 3,
        ConnectionState::Registering => 2,
        ConnectionState::Joining => 1,
        _ => 0,
    }
}

/// Where a connection comes to rest when it goes on from `state` without an
/// answer of the server: active, or waiting for the answer to its request of
/// the capability.
pub open spec fn resting_state(state: ConnectionState, has_secret: bool) -> ConnectionState
    decreases steps_left(state),
{
    if steps_left(state) == 0 {
        state
    } else {
        resting_state(next_phase(state, has_secret), has_secret)
    }
}

/// The two frames that declare the identity.
pub open spec fn registration_frames(nick: Seq<u8>) -> Seq<Seq<u8>> {
    seq![
        ascii("NICK ") + nick + crlf(),
        ascii("USER ") + nick + ascii(" 8 * : ") + nick + crlf(),
    ]
}

/// The frame that asks for the capability to authenticate.
pub open spec fn capability_frame() -> Seq<u8> {
    ascii("CAP REQ :sasl") + crlf()
}

/// The frame that names the mechanism.
pub open spec fn mechanism_frame() -> Seq<u8> {
    ascii("AUTHENTICATE PLAIN") + crlf()
}

/// What is encoded to present the secret: the identity twice and the
/// secret, each followed by a zero byte.
pub open spec fn credential(nick: Seq<u8>, password: Seq<u8>) -> Seq<u8> {
    nick + seq![0u8] + nick + seq![0u8] + password + seq![0u8]
}

/// The frame that presents the encoded secret.
pub open spec fn credential_frame(encoded: Seq<u8>) -> Seq<u8> {
    ascii("AUTHENTICATE ") + encoded + crlf()
}

/// The frame that ends the negotiation.
pub open spec fn completion_frame() -> Seq<u8> {
    ascii("CAP END") + crlf()
}

/// One frame for each channel to join, in the order given.
pub open spec fn join_frames(channels: Seq<Seq<u8>>) -> Seq<Seq<u8>> {
    Seq::new(channels.len(), |i: int| ascii("JOIN ") + channels[i] + crlf())
}

/// Whether every frame that joins a channel respects the protocol's length
/// limit.
pub open spec fn joins_fit(channels: Seq<Seq<u8>>) -> bool {
    forall|i: int| 0 <= i < channels.len() ==> (#[trigger] channels[i]).len() + 7 <= HARD_CEILING
}

/// Whether the frame that presents the secret respects the protocol's
/// length limit.
pub open spec fn credential_fits(nick: Seq<u8>, password: Seq<u8>) -> bool {
    15 + base64_len((2 * nick.len() + password.len() + 3) as int) <= HARD_CEILING
}

/// The frames that are sent when the connection leaves `state` without an
/// answer of the server: the identity first; then the request of the
/// capability where there is a secret, and the channels where there is none.
pub open spec fn phase_frames(
    state: ConnectionState,
    nick: Seq<u8>,
    password: Seq<u8>,
    channels: Seq<Seq<u8>>,
) -> Seq<Seq<u8>> {
    match state {
        ConnectionState::Connecting => registration_frames(nick),
        ConnectionState::Registering => if password.len() > 0 {
            seq![capability_frame()]
        } else {
            join_frames(channels)
        },
        _ => Seq::empty(),
    }
}

/// Whether every frame sent on leaving `state` respects the protocol's
/// length limit.
pub open spec fn phase_fits(
    state: ConnectionState,
    nick: Seq<u8>,
    password: Seq<u8>,
    channels: Seq<Seq<u8>>,
) -> bool {
    match state {
        ConnectionState::Connecting => 2 * nick.len() + 14 <= HARD_CEILING,
        ConnectionState::Registering => password.len() > 0 || joins_fit(channels),
        _ => true,
    }
}

/// The frames that are sent from `state` on until the connection comes to
/// rest.
pub open spec fn remaining_frames(
    state: ConnectionState,
    nick: Seq<u8>,
    password: Seq<u8>,
    channels: Seq<Seq<u8>>,
) -> Seq<Seq<u8>>
    decreases steps_left(state),
{
    if steps_left(state) == 0 {
        Seq::empty()
    } else {
        phase_frames(state, nick, password, channels) + remaining_frames(
            next_phase(state, password.len() > 0),
            nick,
            password,
            channels,
        )
    }
}

/// Whether every frame sent from `state` on until the connection comes to
/// rest respects the protocol's length limit.
pub open spec fn remaining_fit(
    state: ConnectionState,
    nick: Seq<u8>,
    password: Seq<u8>,
    channels: Seq<Seq<u8>>,
) -> bool
    decreases steps_left(state),
{
    if steps_left(state) == 0 {
        true
    } else {
        phase_fits(state, nick, password, channels) && remaining_fit(
            next_phase(state, password.len() > 0),
            nick,
            password,
            channels,
        )
    }
}

/// What an authenticating connection does with an answer that is the one it
/// waits for: it sends the next request, or, once the credentials are
/// accepted, ends the negotiation, joins its channels and is active. An
/// answer that it does not wait for changes nothing.
pub open spec fn granted_step(
    socket: SocketView,
    answer: AnswerView,
    channels: Seq<Seq<u8>>,
) -> Result<(Seq<Seq<u8>>, ConnectionState), IRCError> {
    let stage = socket.state->Authenticating_0;
    if answer is Acknowledged && stage == AuthStage::Capability {
        Ok((seq![mechanism_frame()], ConnectionState::Authenticating(AuthStage::Mechanism)))
    } else if answer is Continue && stage == AuthStage::Mechanism {
        if credential_fits(socket.nick, socket.password) {
            Ok(
                (
                    seq![credential_frame(base64_text(credential(socket.nick, socket.password)))],
                    ConnectionState::Authenticating(AuthStage::Credentials),
                ),
            )
        } else {
            Err(IRCError::MessageTooLong)
        }
    } else if answer is Accepted && stage == AuthStage::Credentials {
        if joins_fit(channels) {
            Ok((seq![completion_frame()] + join_frames(channels), ConnectionState::Active))
        } else {
            Err(IRCError::MessageTooLong)
        }
    } else {
        Ok((Seq::empty(), socket.state))
    }
}

/// What an authenticating connection does with an event: the frames to
/// write and the state that follows, or the error that closes it. A refusal,
/// the end of the stream and a failure of the transport are errors; so is a
/// line without a leading token. A keepalive is answered. A message from the
/// bus is not forwarded before the connection is active.
pub open spec fn auth_step(
    socket: SocketView,
    event: LoopEventView,
    channels: Seq<Seq<u8>>,
) -> Result<(Seq<Seq<u8>>, ConnectionState), IRCError> {
    match event {
        LoopEventView::Bus(_) => Ok((Seq::empty(), socket.state)),
        LoopEventView::TransportError => Err(IRCError::Transport),
        LoopEventView::Line(raw) => if raw.len() == 0 {
            Err(IRCError::StreamClosed)
        } else if before(strip_terminator(raw), SPACE).len() == 0 {
            Err(IRCError::EmptyLine)
        } else {
            match answer_of(strip_terminator(raw)) {
                AnswerView::Refused => Err(IRCError::AuthenticationFailed),
                AnswerView::Ping(token) => if pong_frame(token).len() <= HARD_CEILING {
                    Ok((seq![pong_frame(token)], socket.state))
                } else {
                    Err(IRCError::MessageTooLong)
                },
                answer => granted_step(socket, answer, channels),
            }
        },
    }
}

/// Whether a frame joins a channel.
pub open spec fn is_join(frame: Seq<u8>) -> bool {
    frame.len() >= 5 && frame.subrange(0, 5) == ascii("JOIN ")
}

/// Without an answer of the server, a connection with a secret goes no
/// further than its request of the capability: it sends its identity and
/// that request, no frame that joins a channel, and then waits. A connection
/// without a secret sends its identity, joins its channels and is active.
pub proof fn lemma_connect_waits_for_the_server(
    nick: Seq<u8>,
    password: Seq<u8>,
    channels: Seq<Seq<u8>>,
)
    ensures
        password.len() > 0 ==> {
            &&& remaining_frames(ConnectionState::Connecting, nick, password, channels)
                == registration_frames(nick) + seq![capability_frame()]
            &&& resting_state(ConnectionState::Connecting, true) == ConnectionState::Authenticating(
                AuthStage::Capability,
            )
            &&& forall|i: int|
                0 <= i < 3 ==> !is_join(
                    #[trigger] remaining_frames(
                        ConnectionState::Connecting,
                        nick,
                        password,
                        channels,
                    )[i],
                )
        },
        password.len() == 0 ==> {
            &&& remaining_frames(ConnectionState::Connecting, nick, password, channels)
                == registration_frames(nick) + join_frames(channels)
            &&& resting_state(ConnectionState::Connecting, false) == ConnectionState::Active
        },
{
    reveal_with_fuel(remaining_frames, 4);
    reveal_with_fuel(resting_state, 4);
    reveal_strlit("NICK ");
    reveal_strlit("USER ");
    reveal_strlit("CAP REQ :sasl");
    reveal_strlit("JOIN ");
    if password.len() > 0 {
        let frames = remaining_frames(ConnectionState::Connecting, nick, password, channels);
        assert(frames =~= registration_frames(nick) + seq![capability_frame()]);
        assert forall|i: int| 0 <= i < 3 implies !is_join(#[trigger] frames[i]) by {
            assert(frames[i][0] != ascii("JOIN ")[0]);
            if is_join(frames[i]) {
                assert(frames[i].subrange(0, 5)[0] == ascii("JOIN ")[0]);
            }
        }
    } else {
        assert(remaining_frames(ConnectionState::Connecting, nick, password, channels)
            =~= registration_frames(nick) + join_frames(channels));
    }
}

/// An authentication that the server does not complete is fatal: a failure
/// of the transport, the end of the stream and a refusal each give an error,
/// whatever answer the connection waits for.
pub proof fn lemma_failed_authentication_is_fatal(
    socket: SocketView,
    raw: Seq<u8>,
    channels: Seq<Seq<u8>>,
)
    ensures
        auth_step(socket, LoopEventView::TransportError, channels) == Err::<
            (Seq<Seq<u8>>, ConnectionState),
            IRCError,
        >(IRCError::Transport),
        raw.len() == 0 ==> auth_step(socket, LoopEventView::Line(raw), channels) == Err::<
            (Seq<Seq<u8>>, ConnectionState),
            IRCError,
        >(IRCError::StreamClosed),
        raw.len() > 0 && answer_of(strip_terminator(raw)) is Refused ==> auth_step(
            socket,
            LoopEventView::Line(raw),
            channels,
        ) is Err,
{
}

/// The channels are joined only once the credentials are accepted: a step
/// of the authentication that does not end in an error either makes the
/// connection active, and then the connection waited for the answer to its
/// credentials and that answer accepted them, or leaves it authenticating,
/// and then it sends at most one frame, which joins no channel.
pub proof fn lemma_joins_wait_for_acceptance(
    socket: SocketView,
    event: LoopEventView,
    channels: Seq<Seq<u8>>,
)
    requires
        socket.state is Authenticating,
    ensures
        match auth_step(socket, event, channels) {
            Ok((frames, next)) => if next == ConnectionState::Active {
                &&& socket.state == ConnectionState::Authenticating(AuthStage::Credentials)
                &&& event matches LoopEventView::Line(raw)
                &&& answer_of(strip_terminator(raw)) is Accepted
                &&& frames == seq![completion_frame()] + join_frames(channels)
            } else {
                &&& next is Authenticating
                &&& frames.len() <= 1
                &&& forall|i: int| 0 <= i < frames.len() ==> !is_join(#[trigger] frames[i])
            },
            Err(_) => true,
        },
{
    reveal_strlit("JOIN ");
    reveal_strlit("PONG ");
    reveal_strlit("AUTHENTICATE PLAIN");
    reveal_strlit("AUTHENTICATE ");
    match auth_step(socket, event, channels) {
        Ok((frames, next)) => {
            assert forall|i: int| 0 <= i < frames.len() && next != ConnectionState::Active
                implies !is_join(#[trigger] frames[i]) by {
                assert(frames[i][0] != ascii("JOIN ")[0]);
                if is_join(frames[i]) {
                    assert(frames[i].subrange(0, 5)[0] == ascii("JOIN ")[0]);
                }
            }
        },
        Err(_) => {},
    }
}

/// The message, if it is meant for the connection to `addr`: one that
/// travels towards a network and names that server.
pub open spec fn outgoing_for(cmd: MessageView, addr: Seq<u8>) -> Option<MessageView> {
    if cmd.state == MessageState::OUTGOING && cmd.network == addr {
        Some(cmd)
    } else {
        None
    }
}

/// The frame that answers a keepalive.
pub open spec fn pong_frame(token: Seq<u8>) -> Seq<u8> {
    ascii("PONG ") + token + crlf()
}

/// What an active connection does with an event: the actions to perform, or
/// the error that closes it.
pub open spec fn loop_step(socket: SocketView, event: LoopEventView) -> Result<
    Seq<ActionView>,
    IRCError,
> {
    match event {
        LoopEventView::Bus(cmd) => match outgoing_for(cmd, socket.addr) {
            None => Ok(Seq::empty()),
            Some(m) => if budget(
                EFFECTIVE_CEILING as int,
                privmsg_prefix(m.channel).len() as int,
            ) >= 1 {
                let frames = privmsg_frames(m.channel, m.content, EFFECTIVE_CEILING as int);
                Ok(Seq::new(frames.len(), |i: int| ActionView::Send(frames[i])))
            } else {
                Err(IRCError::NoRoom)
            },
        },
        LoopEventView::Line(raw) => if raw.len() == 0 {
            Err(IRCError::StreamClosed)
        } else {
            match parse_line(strip_terminator(raw), socket.addr, socket.nick) {
                Err(e) => Err(e),
                Ok(InboundView::Pong(token)) => if pong_frame(token).len() <= HARD_CEILING {
                    Ok(seq![ActionView::Send(pong_frame(token))])
                } else {
                    Err(IRCError::MessageTooLong)
                },
                Ok(InboundView::Message(m)) => Ok(seq![ActionView::Publish(m)]),
                Ok(InboundView::Other) => Ok(seq![ActionView::Log(strip_terminator(raw))]),
            }
        },
        LoopEventView::TransportError => Err(IRCError::Transport),
    }
}

/// Every frame that an active connection asks to write is a complete
/// protocol line: it ends with the terminator and is no longer than the
/// protocol allows.
pub proof fn lemma_sent_frames_are_lines(socket: SocketView, event: LoopEventView)
    ensures
        match loop_step(socket, event) {
            Ok(actions) => forall|i: int|
                0 <= i < actions.len() ==> match #[trigger] actions[i] {
                    ActionView::Send(frame) => is_frame(frame),
                    _ => true,
                },
            Err(_) => true,
        },
{
    match event {
        LoopEventView::Bus(cmd) => {
            if outgoing_for(cmd, socket.addr) is Some && budget(
                EFFECTIVE_CEILING as int,
                privmsg_prefix(cmd.channel).len() as int,
            ) >= 1 {
                lemma_segmentation(cmd.channel, cmd.content, EFFECTIVE_CEILING as int);
            }
        },
        LoopEventView::Line(raw) => {
            if raw.len() > 0 {
                match parse_line(strip_terminator(raw), socket.addr, socket.nick) {
                    Ok(InboundView::Pong(token)) => {
                        let frame = pong_frame(token);
                        assert(frame.subrange(frame.len() - 2, frame.len() as int) =~= crlf());
                    },
                    _ => {},
                }
            }
        },
        LoopEventView::TransportError => {},
    }
}

/// A keepalive is answered with exactly one frame, which carries its token.
pub proof fn lemma_ping_is_answered(socket: SocketView, token: Seq<u8>)
    requires
        !token.contains(SPACE),
        7 + token.len() <= HARD_CEILING,
    ensures
        loop_step(socket, LoopEventView::Line(ascii("PING ") + token + crlf())) == Ok::<
            Seq<ActionView>,
            IRCError,
        >(seq![ActionView::Send(ascii("PONG ") + token + crlf())]),
{
    reveal_strlit("PONG ");
    lemma_strip_undoes_framing(ascii("PING ") + token);
    lemma_ping_asks_for_pong(token, socket.addr, socket.nick);
}

/// The name to present when the transport is encrypted: the server's
/// address up to its first `:`.
pub open spec fn host_part(addr: Seq<u8>) -> Seq<u8> {
    before(addr, COLON)
}

/// A protocol line: a fixed word, a text, and the terminator.
fn line_of(head: &str, body: &[u8]) -> (frame: Vec<u8>)
    requires
        is_ascii(head),
    ensures
        frame@ == ascii(head) + body@ + crlf(),
        frame@.len() == head@.len() + body@.len() + 2,
        frame@.subrange(frame@.len() - 2, frame@.len() as int) == crlf(),
{
    let mut frame = ascii_bytes(head);
    frame.extend_from_slice(body);
    frame.push(13u8);
    frame.push(10u8);
    frame
}

/// Lets a message from the bus through if it is meant for the connection to
/// `addr`.
pub fn process_outgoing_messages(cmd: BouncerMessage, addr: &[u8]) -> (kept: Option<
    BouncerMessage,
>)
    ensures
        match kept {
            Some(m) => outgoing_for(cmd@, addr@) == Some(m@),
            None => outgoing_for(cmd@, addr@) is None,
        },
{
    if cmd.state == MessageState::OUTGOING && bytes_eq(cmd.network.as_slice(), addr) {
        Some(cmd)
    } else {
        None
    }
}

/// Prepares the connection to `addr`: the socket before its first frame, and
/// the name to present to the server if the transport is to be encrypted.
pub fn connect_to_server(addr: Vec<u8>, nick: Vec<u8>, password: Vec<u8>, use_tls: bool) -> (plan: (
    IRCSocket,
    Option<Vec<u8>>,
))
    ensures
        plan.0@ == (SocketView {
            addr: addr@,
            tls: use_tls,
            nick: nick@,
            password: password@,
            state: ConnectionState::Connecting,
        }),
        match plan.1 {
            Some(host) => use_tls && host@ == host_part(addr@),
            None => !use_tls,
        },
{
    let host = if use_tls {
        let colon = find_byte(addr.as_slice(), COLON);
        Some(slice_to_vec(slice_subrange(addr.as_slice(), 0, colon)))
    } else {
        None
    };
    (IRCSocket { addr, tls: use_tls, nick, password, state: ConnectionState::Connecting }, host)
}

/// What is encoded to present the secret.
pub fn sasl_plain(nick: &[u8], password: &[u8]) -> (plain: Vec<u8>)
    ensures
        plain@ == credential(nick@, password@),
{
    let mut plain: Vec<u8> = Vec::new();
    plain.extend_from_slice(nick);
    plain.push(0u8);
    plain.extend_from_slice(nick);
    plain.push(0u8);
    plain.extend_from_slice(password);
    plain.push(0u8);
    plain
}

/// The frame that presents an encoded secret, unless it would break the
/// protocol's length limit.
pub fn credential_frame_of(encoded: &[u8]) -> (frame: Option<Vec<u8>>)
    ensures
        match frame {
            Some(f) => 15 + encoded@.len() <= HARD_CEILING && f@ == credential_frame(encoded@)
                && is_frame(f@),
            None => 15 + encoded@.len() > HARD_CEILING,
        },
{
    proof {
        reveal_strlit("AUTHENTICATE ");
    }
    if encoded.len() > HARD_CEILING - 15 {
        return None;
    }
    Some(line_of("AUTHENTICATE ", encoded))
}

impl IRCSocket {
    /// The frames that declare the identity, if they fit.
    fn registration(&self) -> (frames: Option<Vec<Vec<u8>>>)
        ensures
            match frames {
                Some(f) => {
                    &&& 2 * self.nick@.len() + 14 <= HARD_CEILING
                    &&& lines_of(f@) == registration_frames(self.nick@)
                    &&& forall|i: int| 0 <= i < f@.len() ==> is_frame((#[trigger] f@[i])@)
                },
                None => 2 * self.nick@.len() + 14 > HARD_CEILING,
            },
    {
        proof {
            reveal_strlit("NICK ");
            reveal_strlit("USER ");
            reveal_strlit(" 8 * : ");
        }
        if self.nick.len() > 249 {
            return None;
        }
        let nick_frame = line_of("NICK ", self.nick.as_slice());
        let mut user_frame = ascii_bytes("USER ");
        user_frame.extend_from_slice(self.nick.as_slice());
        let middle = ascii_bytes(" 8 * : ");
        user_frame.extend_from_slice(middle.as_slice());
        user_frame.extend_from_slice(self.nick.as_slice());
        user_frame.push(13u8);
        user_frame.push(10u8);
        assert(user_frame@ =~= ascii("USER ") + self.nick@ + ascii(" 8 * : ") + self.nick@ + crlf());
        assert(user_frame@.subrange(user_frame@.len() - 2, user_frame@.len() as int) =~= crlf());
        let mut frames: Vec<Vec<u8>> = Vec::new();
        frames.push(nick_frame);
        frames.push(user_frame);
        Some(frames)
    }

    /// The frame that presents the secret, if it fits.
    fn credentials(&self) -> (frame: Option<Vec<u8>>)
        ensures
            match frame {
                Some(f) => {
                    &&& credential_fits(self.nick@, self.password@)
                    &&& f@ == credential_frame(base64_text(credential(self.nick@, self.password@)))
                    &&& is_frame(f@)
                },
                None => !credential_fits(self.nick@, self.password@),
            },
    {
        if self.nick.len() > HARD_CEILING || self.password.len() > HARD_CEILING {
            return None;
        }
        let plain = sasl_plain(self.nick.as_slice(), self.password.as_slice());
        let encoded = base64_encode(plain.as_slice());
        credential_frame_of(encoded.as_slice())
    }

    /// Takes the handshake one step further, as far as that needs no answer
    /// of the server, and gives the frames to write for it. A frame that
    /// would break the protocol's length limit closes the connection
    /// instead.
    pub fn advance(&mut self, channels: &Vec<Vec<u8>>) -> (sent: Result<Vec<Vec<u8>>, IRCError>)
        ensures
            ({
                let start = old(self)@;
                let names = lines_of(channels@);
                match sent {
                    Ok(frames) => {
                        &&& phase_fits(start.state, start.nick, start.password, names)
                        &&& lines_of(frames@) == phase_frames(
                            start.state,
                            start.nick,
                            start.password,
                            names,
                        )
                        &&& forall|i: int|
                            0 <= i < frames@.len() ==> is_frame((#[trigger] frames@[i])@)
                        &&& final(self)@ == (SocketView {
                            state: next_phase(start.state, start.password.len() > 0),
                            ..start
                        })
                    },
                    Err(e) => {
                        &&& !phase_fits(start.state, start.nick, start.password, names)
                        &&& e == IRCError::MessageTooLong
                        &&& final(self)@ == (SocketView { state: ConnectionState::Closed, ..start })
                    },
                }
            }),
    {
        proof {
            reveal_strlit("CAP REQ :sasl");
        }
        let has_secret = self.password.len() > 0;
        let (frames, next) = match self.state {
            ConnectionState::Connecting => (self.registration(), ConnectionState::Registering),
            ConnectionState::Registering => if has_secret {
                let mut request: Vec<Vec<u8>> = Vec::new();
                request.push(line_of("CAP REQ :sasl", Vec::new().as_slice()));
                assert(lines_of(request@) =~= seq![capability_frame()]);
                (Some(request), ConnectionState::Authenticating(AuthStage::Capability))
            } else {
                (join_all(channels), ConnectionState::Joining)
            },
            ConnectionState::Joining => (Some(Vec::new()), ConnectionState::Active),
            state => (Some(Vec::new()), state),
        };
        match frames {
            Some(f) => {
                self.state = next;
                Ok(f)
            },
            None => {
                self.state = ConnectionState::Closed;
                Err(IRCError::MessageTooLong)
            },
        }
    }

    /// Runs the handshake from where the connection stands as far as it goes
    /// without an answer of the server, and gives the frames to write, in
    /// order. Without a secret these are the identity and the channels, and
    /// the connection is active afterwards. With a secret they are the
    /// identity and the request of the capability: the connection then waits
    /// for the server, and no channel is joined before `authenticate` has
    /// seen the credentials accepted. If a frame would break the protocol's
    /// length limit, none is given and the connection is closed.
    pub fn connect(&mut self, channels: &Vec<Vec<u8>>) -> (sent: Result<Vec<Vec<u8>>, IRCError>)
        ensures
            ({
                let start = old(self)@;
                let names = lines_of(channels@);
                match sent {
                    Ok(frames) => {
                        &&& start.state != ConnectionState::Closed
                        &&& remaining_fit(start.state, start.nick, start.password, names)
                        &&& lines_of(frames@) == remaining_frames(
                            start.state,
                            start.nick,
                            start.password,
                            names,
                        )
                        &&& forall|i: int|
                            0 <= i < frames@.len() ==> is_frame((#[trigger] frames@[i])@)
                        &&& final(self)@ == (SocketView {
                            state: resting_state(start.state, start.password.len() > 0),
                            ..start
                        })
                    },
                    Err(e) => {
                        &&& final(self)@ == (SocketView { state: ConnectionState::Closed, ..start })
                        &&& if start.state == ConnectionState::Closed {
                            e == IRCError::Closed
                        } else {
                            e == IRCError::MessageTooLong && !remaining_fit(
                                start.state,
                                start.nick,
                                start.password,
                                names,
                            )
                        }
                    },
                }
            }),
    {
        if self.state == ConnectionState::Closed {
            return Err(IRCError::Closed);
        }
        let ghost start = self@;
        let ghost names = lines_of(channels@);
        let ghost has_secret = start.password.len() > 0;
        let mut all: Vec<Vec<u8>> = Vec::new();
        while self.state == ConnectionState::Connecting || self.state
            == ConnectionState::Registering || self.state == ConnectionState::Joining
            invariant
                names == lines_of(channels@),
                start == old(self)@,
                has_secret == (start.password.len() > 0),
                start.state != ConnectionState::Closed,
                self.state != ConnectionState::Closed,
                self@ == (SocketView { state: self.state, ..start }),
                lines_of(all@) + remaining_frames(self.state, start.nick, start.password, names)
                    == remaining_frames(start.state, start.nick, start.password, names),
                remaining_fit(self.state, start.nick, start.password, names) == remaining_fit(
                    start.state,
                    start.nick,
                    start.password,
                    names,
                ),
                resting_state(self.state, has_secret) == resting_state(start.state, has_secret),
                forall|i: int| 0 <= i < all@.len() ==> is_frame((#[trigger] all@[i])@),
            decreases steps_left(self.state),
        {
            let ghost so_far = lines_of(all@);
            match self.advance(channels) {
                Ok(mut frames) => {
                    let ghost added = lines_of(frames@);
                    all.append(&mut frames);
                    assert(lines_of(all@) =~= so_far + added);
                    assert(so_far + (added + remaining_frames(
                        self.state,
                        start.nick,
                        start.password,
                        names,
                    )) =~= (so_far + added) + remaining_frames(
                        self.state,
                        start.nick,
                        start.password,
                        names,
                    ));
                },
                Err(e) => {
                    return Err(e);
                },
            }
        }
        Ok(all)
    }

    /// Handles one event on a connection that is authenticating: the frames
    /// to write, or the error that closes the connection. The server's
    /// answers take the connection from one request to the next; the
    /// channels are joined, and the connection is active, only once the
    /// credentials are accepted. A connection that is not authenticating is
    /// left as it is.
    pub fn authenticate(&mut self, event: LoopEvent, channels: &Vec<Vec<u8>>) -> (sent: Result<
        Vec<Vec<u8>>,
        IRCError,
    >)
        ensures
            !(old(self).state is Authenticating) ==> {
                &&& sent matches Err(e)
                &&& e == IRCError::NotAuthenticating
                &&& final(self)@ == old(self)@
            },
            old(self).state is Authenticating ==> match sent {
                Ok(frames) => {
                    &&& auth_step(old(self)@, event@, lines_of(channels@)) == Ok::<
                        (Seq<Seq<u8>>, ConnectionState),
                        IRCError,
                    >((lines_of(frames@), final(self).state))
                    &&& final(self)@ == (SocketView { state: final(self).state, ..old(self)@ })
                    &&& forall|i: int| 0 <= i < frames@.len() ==> is_frame((#[trigger] frames@[i])@)
                },
                Err(e) => {
                    &&& auth_step(old(self)@, event@, lines_of(channels@)) == Err::<
                        (Seq<Seq<u8>>, ConnectionState),
                        IRCError,
                    >(e)
                    &&& final(self)@ == (SocketView {
                        state: ConnectionState::Closed,
                        ..old(self)@
                    })
                },
            },
    {
        let stage = match self.state {
            ConnectionState::Authenticating(stage) => stage,
            _ => {
                return Err(IRCError::NotAuthenticating);
            },
        };
        let answered = match event {
            LoopEvent::Bus(_) => {
                let none: Vec<Vec<u8>> = Vec::new();
                assert(lines_of(none@) =~= Seq::<Seq<u8>>::empty());
                Ok((none, self.state))
            },
            LoopEvent::TransportError => Err(IRCError::Transport),
            LoopEvent::Line(raw) => self.answer(stage, raw.as_slice(), channels),
        };
        match answered {
            Ok((frames, next)) => {
                self.state = next;
                Ok(frames)
            },
            Err(e) => {
                self.state = ConnectionState::Closed;
                Err(e)
            },
        }
    }

    /// Turns one read from the stream into the next step of the
    /// authentication.
    fn answer(&self, stage: AuthStage, raw: &[u8], channels: &Vec<Vec<u8>>) -> (step: Result<
        (Vec<Vec<u8>>, ConnectionState),
        IRCError,
    >)
        requires
            self.state == ConnectionState::Authenticating(stage),
        ensures
            match step {
                Ok((frames, next)) => {
                    &&& auth_step(self@, LoopEventView::Line(raw@), lines_of(channels@)) == Ok::<
                        (Seq<Seq<u8>>, ConnectionState),
                        IRCError,
                    >((lines_of(frames@), next))
                    &&& forall|i: int| 0 <= i < frames@.len() ==> is_frame((#[trigger] frames@[i])@)
                },
                Err(e) => auth_step(self@, LoopEventView::Line(raw@), lines_of(channels@)) == Err::<
                    (Seq<Seq<u8>>, ConnectionState),
                    IRCError,
                >(e),
            },
    {
        proof {
            reveal_strlit("PONG ");
            reveal_strlit("AUTHENTICATE PLAIN");
            reveal_strlit("CAP END");
        }
        let line = match receive_incoming_data(raw) {
            Ok(line) => line,
            Err(e) => {
                return Err(e);
            },
        };
        if find_byte(line.as_slice(), SPACE) == 0 {
            return Err(IRCError::EmptyLine);
        }
        let mut frames: Vec<Vec<u8>> = Vec::new();
        match read_answer(line.as_slice()) {
            Answer::Refused => Err(IRCError::AuthenticationFailed),
            Answer::Ping(token) => {
                if token.len() > HARD_CEILING {
                    return Err(IRCError::MessageTooLong);
                }
                match send_raw(line_of("PONG ", token.as_slice())) {
                    Ok(frame) => {
                        frames.push(frame);
                        assert(lines_of(frames@) =~= seq![pong_frame(token@)]);
                        Ok((frames, self.state))
                    },
                    Err(e) => Err(e),
                }
            },
            Answer::Acknowledged => {
                if stage == AuthStage::Capability {
                    frames.push(line_of("AUTHENTICATE PLAIN", Vec::new().as_slice()));
                    assert(lines_of(frames@) =~= seq![mechanism_frame()]);
                    Ok((frames, ConnectionState::Authenticating(AuthStage::Mechanism)))
                } else {
                    assert(lines_of(frames@) =~= Seq::<Seq<u8>>::empty());
                    Ok((frames, self.state))
                }
            },
            Answer::Continue => {
                if stage == AuthStage::Mechanism {
                    match self.credentials() {
                        Some(frame) => {
                            frames.push(frame);
                            assert(lines_of(frames@) =~= seq![
                                credential_frame(
                                    base64_text(credential(self.nick@, self.password@)),
                                ),
                            ]);
                            Ok((frames, ConnectionState::Authenticating(AuthStage::Credentials)))
                        },
                        None => Err(IRCError::MessageTooLong),
                    }
                } else {
                    assert(lines_of(frames@) =~= Seq::<Seq<u8>>::empty());
                    Ok((frames, self.state))
                }
            },
            Answer::Accepted => {
                if stage == AuthStage::Credentials {
                    match join_all(channels) {
                        Some(mut joins) => {
                            frames.push(line_of("CAP END", Vec::new().as_slice()));
                            let ghost head = lines_of(frames@);
                            let ghost tail = lines_of(joins@);
                            frames.append(&mut joins);
                            assert(lines_of(frames@) =~= head + tail);
                            assert(head =~= seq![completion_frame()]);
                            Ok((frames, ConnectionState::Active))
                        },
                        None => Err(IRCError::MessageTooLong),
                    }
                } else {
                    assert(lines_of(frames@) =~= Seq::<Seq<u8>>::empty());
                    Ok((frames, self.state))
                }
            },
            Answer::Other => {
                assert(lines_of(frames@) =~= Seq::<Seq<u8>>::empty());
                Ok((frames, self.state))
            },
        }
    }

    /// Handles one event on an active connection: what the caller is to do,
    /// or the error that closes the connection. A connection that is not
    /// active is left as it is.
    pub fn do_main_loop(&mut self, event: LoopEvent) -> (done: Result<Vec<Action>, IRCError>)
        ensures
            old(self).state != ConnectionState::Active ==> {
                &&& done matches Err(e)
                &&& e == IRCError::NotActive
                &&& final(self)@ == old(self)@
            },
            old(self).state == ConnectionState::Active ==> match done {
                Ok(actions) => {
                    &&& loop_step(old(self)@, event@) == Ok::<Seq<ActionView>, IRCError>(
                        actions_of(actions@),
                    )
                    &&& final(self)@ == old(self)@
                },
                Err(e) => {
                    &&& loop_step(old(self)@, event@) == Err::<Seq<ActionView>, IRCError>(e)
                    &&& final(self)@ == (SocketView {
                        state: ConnectionState::Closed,
                        ..old(self)@
                    })
                },
            },
    {
        if self.state != ConnectionState::Active {
            return Err(IRCError::NotActive);
        }
        let handled = match event {
            LoopEvent::Bus(cmd) => self.outgoing(cmd),
            LoopEvent::Line(raw) => self.incoming(raw.as_slice()),
            LoopEvent::TransportError => Err(IRCError::Transport),
        };
        if handled.is_err() {
            self.state = ConnectionState::Closed;
        }
        handled
    }

    /// Turns a message from the bus into the frames that carry it.
    fn outgoing(&self, cmd: BouncerMessage) -> (done: Result<Vec<Action>, IRCError>)
        ensures
            match done {
                Ok(actions) => loop_step(self@, LoopEventView::Bus(cmd@)) == Ok::<
                    Seq<ActionView>,
                    IRCError,
                >(actions_of(actions@)),
                Err(e) => loop_step(self@, LoopEventView::Bus(cmd@)) == Err::<
                    Seq<ActionView>,
                    IRCError,
                >(e),
            },
    {
        let m = match process_outgoing_messages(cmd, self.addr.as_slice()) {
            Some(m) => m,
            None => {
                let none: Vec<Action> = Vec::new();
                assert(actions_of(none@) =~= Seq::<ActionView>::empty());
                return Ok(none);
            },
        };
        let frames = match encode_privmsg(
            m.channel.as_slice(),
            m.content.as_slice(),
            EFFECTIVE_CEILING,
        ) {
            Ok(frames) => frames,
            Err(_) => {
                return Err(IRCError::NoRoom);
            },
        };
        let ghost wanted = privmsg_frames(m.channel@, m.content@, EFFECTIVE_CEILING as int);
        let mut actions: Vec<Action> = Vec::new();
        let mut i: usize = 0;
        while i < frames.len()
            invariant
                0 <= i <= frames@.len(),
                lines_of(frames@) == wanted,
                actions@.len() == i,
                forall|k: int| 0 <= k < i ==> (#[trigger] actions@[k])@ == ActionView::Send(wanted[k]),
            decreases frames.len() - i,
        {
            let frame = frames[i].clone();
            actions.push(Action::Send(frame));
            i += 1;
        }
        assert(actions_of(actions@) =~= Seq::new(
            wanted.len(),
            |k: int| ActionView::Send(wanted[k]),
        ));
        Ok(actions)
    }

    /// Turns one read from the stream into what it asks for.
    fn incoming(&self, raw: &[u8]) -> (done: Result<Vec<Action>, IRCError>)
        ensures
            match done {
                Ok(actions) => loop_step(self@, LoopEventView::Line(raw@)) == Ok::<
                    Seq<ActionView>,
                    IRCError,
                >(actions_of(actions@)),
                Err(e) => loop_step(self@, LoopEventView::Line(raw@)) == Err::<
                    Seq<ActionView>,
                    IRCError,
                >(e),
            },
    {
        proof {
            reveal_strlit("PONG ");
        }
        let line = match receive_incoming_data(raw) {
            Ok(line) => line,
            Err(e) => {
                return Err(e);
            },
        };
        let inbound = match read_line(line.as_slice(), self.addr.as_slice(), self.nick.as_slice()) {
            Ok(inbound) => inbound,
            Err(e) => {
                return Err(e);
            },
        };
        let mut actions: Vec<Action> = Vec::new();
        match inbound {
            Inbound::Pong(token) => {
                if token.len() > HARD_CEILING {
                    return Err(IRCError::MessageTooLong);
                }
                let frame = match send_raw(line_of("PONG ", token.as_slice())) {
                    Ok(frame) => frame,
                    Err(e) => {
                        return Err(e);
                    },
                };
                actions.push(Action::Send(frame));
                assert(actions_of(actions@) =~= seq![ActionView::Send(pong_frame(token@))]);
            },
            Inbound::Message(m) => {
                let ghost published = m@;
                actions.push(Action::Publish(m));
                assert(actions_of(actions@) =~= seq![ActionView::Publish(published)]);
            },
            Inbound::Other => {
                let ghost shown = line@;
                actions.push(Action::Log(line));
                assert(actions_of(actions@) =~= seq![ActionView::Log(shown)]);
            },
        }
        Ok(actions)
    }
}

/// One frame for each channel to join, if they all fit.
fn join_all(channels: &Vec<Vec<u8>>) -> (frames: Option<Vec<Vec<u8>>>)
    ensures
        match frames {
            Some(f) => {
                &&& joins_fit(lines_of(channels@))
                &&& lines_of(f@) == join_frames(lines_of(channels@))
                &&& forall|i: int| 0 <= i < f@.len() ==> is_frame((#[trigger] f@[i])@)
            },
            None => !joins_fit(lines_of(channels@)),
        },
{
    proof {
        reveal_strlit("JOIN ");
    }
    let ghost names = lines_of(channels@);
    let mut frames: Vec<Vec<u8>> = Vec::new();
    let mut i: usize = 0;
    while i < channels.len()
        invariant
            0 <= i <= channels@.len(),
            names == lines_of(channels@),
            frames@.len() == i,
            forall|k: int| 0 <= k < i ==> (#[trigger] names[k]).len() + 7 <= HARD_CEILING,
            forall|k: int|
                0 <= k < i ==> (#[trigger] frames@[k])@ == ascii("JOIN ") + names[k] + crlf(),
            forall|k: int| 0 <= k < i ==> is_frame((#[trigger] frames@[k])@),
            is_ascii("JOIN "),
            ascii("JOIN ").len() == 5,
        decreases channels.len() - i,
    {
        assert(names[i as int] == channels@[i as int]@);
        if channels[i].len() > HARD_CEILING - 7 {
            return None;
        }
        let frame = line_of("JOIN ", channels[i].as_slice());
        frames.push(frame);
        i += 1;
    }
    Some(frames)
}

} // verus!

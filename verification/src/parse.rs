//! Reading one protocol line: an optional source prefix, a command, and what
//! follows it. Tokens are separated by single spaces.

use crate::error::IRCError;
use crate::message::{BouncerMessage, MessageState, MessageView};
use crate::text::{
    after, ascii, before, contains, contains_seq, find_byte, index_of, is_text, lemma_cut,
    lemma_index_from, lemma_uncut, split_at_byte, BANG, COLON, SPACE,
};
use vstd::prelude::*;
use vstd::slice::{slice_subrange, slice_to_vec};
use vstd::string::*;

verus! {

/// What a line asks the connection to do.
#[derive(Debug)]
pub enum Inbound {
    /// Answer a keepalive with this token.
    Pong(Vec<u8>),
    /// Publish this message on the bus.
    Message(BouncerMessage),
    /// Nothing: the line is only shown to the operator.
    Other,
}

/// What an `Inbound` holds.
pub enum InboundView {
    Pong(Seq<u8>),
    Message(MessageView),
    Other,
}

impl View for Inbound {
    type V = InboundView;

    open spec fn view(&self) -> InboundView {
        match self {
            Inbound::Pong(token) => InboundView::Pong(token@),
            Inbound::Message(m) => InboundView::Message(m@),
            Inbound::Other => InboundView::Other,
        }
    }
}

/// What a name is without the sigil in front of it, if it has one.
pub open spec fn without_sigil(name: Seq<u8>) -> Seq<u8> {
    if name.len() > 0 && name[0] == COLON {
        name.subrange(1, name.len() as int)
    } else {
        name
    }
}

/// The user that a source prefix names: what stands before its first `!`,
/// without the sigil. A prefix without `!` names nobody.
pub open spec fn origin_user(blob: Seq<u8>) -> Option<Seq<u8>> {
    if index_of(blob, BANG) >= blob.len() {
        None
    } else {
        Some(without_sigil(before(blob, BANG)))
    }
}

/// Whether a line opens with a source prefix: a first token that begins with
/// the sigil.
pub open spec fn has_prefix(line: Seq<u8>) -> bool {
    before(line, SPACE).len() > 0 && line[0] == COLON
}

/// A `PRIVMSG` or `NOTICE` from `blob`, with `args` behind the command: the
/// channel, then the text behind one leading byte.
pub open spec fn parse_text(
    blob: Seq<u8>,
    args: Option<Seq<u8>>,
    network: Seq<u8>,
    nick: Seq<u8>,
) -> Result<InboundView, IRCError> {
    if args is None || after(args->0, SPACE) is None || after(args->0, SPACE)->0.len() == 0 {
        Err(IRCError::MalformedMessage)
    } else if origin_user(blob) is None {
        Err(IRCError::UnknownOrigin)
    } else {
        let text = after(args->0, SPACE)->0;
        let content = text.subrange(1, text.len() as int);
        Ok(
            InboundView::Message(
                MessageView {
                    network,
                    channel: before(args->0, SPACE),
                    user: origin_user(blob)->0,
                    content,
                    state: MessageState::INCOMING,
                    ping: contains_seq(content, nick),
                },
            ),
        )
    }
}

/// A `TOPIC` from `blob`, with `args` behind the command: the channel, then
/// the topic as it stands.
pub open spec fn parse_topic(blob: Seq<u8>, args: Option<Seq<u8>>, network: Seq<u8>) -> Result<
    InboundView,
    IRCError,
> {
    if args is None {
        Err(IRCError::MalformedMessage)
    } else if origin_user(blob) is None {
        Err(IRCError::UnknownOrigin)
    } else {
        Ok(
            InboundView::Message(
                MessageView {
                    network,
                    channel: before(args->0, SPACE),
                    user: origin_user(blob)->0,
                    content: match after(args->0, SPACE) {
                        Some(topic) => topic,
                        None => Seq::empty(),
                    },
                    state: MessageState::INCOMING,
                    ping: false,
                },
            ),
        )
    }
}

/// What the command and its arguments ask for. `blob` is the source prefix,
/// if the line had one.
pub open spec fn parse_command(
    blob: Option<Seq<u8>>,
    rest: Seq<u8>,
    network: Seq<u8>,
    nick: Seq<u8>,
) -> Result<InboundView, IRCError> {
    let command = before(rest, SPACE);
    let args = after(rest, SPACE);
    if command == ascii("PING") {
        match args {
            Some(a) => Ok(InboundView::Pong(before(a, SPACE))),
            None => Err(IRCError::InvalidPing),
        }
    } else if blob is Some && (command == ascii("PRIVMSG") || command == ascii("NOTICE")) {
        parse_text(blob->0, args, network, nick)
    } else if blob is Some && command == ascii("TOPIC") {
        parse_topic(blob->0, args, network)
    } else {
        Ok(InboundView::Other)
    }
}

/// What a line, already without its terminator, asks for on the connection
/// to `network` where the local identity is `nick`.
pub open spec fn parse_line(line: Seq<u8>, network: Seq<u8>, nick: Seq<u8>) -> Result<
    InboundView,
    IRCError,
> {
    if before(line, SPACE).len() == 0 {
        Err(IRCError::EmptyLine)
    } else if has_prefix(line) {
        match after(line, SPACE) {
            Some(rest) => parse_command(Some(before(line, SPACE)), rest, network, nick),
            None => Ok(InboundView::Other),
        }
    } else {
        parse_command(None, line, network, nick)
    }
}

/// A prefix `nick!user@host` names `nick`, with the sigil in front of it or
/// without, whatever the user and the host are. The nickname holds no `!`
/// and does not itself begin with the sigil.
pub proof fn lemma_origin_of_full_prefix(nick: Seq<u8>, user: Seq<u8>, host: Seq<u8>)
    requires
        !nick.contains(BANG),
        nick.len() == 0 || nick[0] != COLON,
    ensures
        origin_user(nick + seq![BANG] + user + seq![64u8] + host) == Some(nick),
        origin_user(seq![COLON] + nick + seq![BANG] + user + seq![64u8] + host) == Some(nick),
{
    lemma_origin_of_prefix(nick, user + seq![64u8] + host);
    assert(nick + seq![BANG] + user + seq![64u8] + host =~= nick + seq![BANG] + (user
        + seq![64u8] + host));
    assert(seq![COLON] + nick + seq![BANG] + user + seq![64u8] + host =~= seq![COLON] + nick
        + seq![BANG] + (user + seq![64u8] + host));
}

/// A prefix made of a nickname without `!`, a `!` and anything names that
/// nickname, with the sigil in front of it or, where the nickname does not
/// itself begin with the sigil, without.
pub proof fn lemma_origin_of_prefix(nick: Seq<u8>, rest: Seq<u8>)
    requires
        !nick.contains(BANG),
    ensures
        origin_user(seq![COLON] + nick + seq![BANG] + rest) == Some(nick),
        nick.len() == 0 || nick[0] != COLON ==> origin_user(nick + seq![BANG] + rest) == Some(
            nick,
        ),
{
    let head = seq![COLON] + nick;
    assert(!head.contains(BANG)) by {
        if head.contains(BANG) {
            let j = choose|j: int| 0 <= j < head.len() && head[j] == BANG;
            assert(nick[j - 1] == BANG);
        }
    }
    lemma_cut(head, BANG, rest);
    assert(head.subrange(1, head.len() as int) =~= nick);
    lemma_cut(nick, BANG, rest);
}

/// A prefix names a user exactly when it holds a `!`.
pub proof fn lemma_origin_needs_bang(blob: Seq<u8>)
    ensures
        origin_user(blob) is Some <==> blob.contains(BANG),
{
    lemma_index_from(blob, BANG, 0);
    let bang = index_of(blob, BANG);
    if bang < blob.len() {
        assert(blob[bang] == BANG);
    } else {
        if blob.contains(BANG) {
            let j = choose|j: int| 0 <= j < blob.len() && blob[j] == BANG;
            assert(blob[j] != BANG);
        }
    }
}

/// A keepalive whose token holds no space asks for an answer with that
/// very token.
pub proof fn lemma_ping_asks_for_pong(token: Seq<u8>, network: Seq<u8>, nick: Seq<u8>)
    requires
        !token.contains(SPACE),
    ensures
        parse_line(ascii("PING ") + token, network, nick) == Ok::<InboundView, IRCError>(
            InboundView::Pong(token),
        ),
{
    reveal_strlit("PING ");
    reveal_strlit("PING");
    assert(ascii("PING ") + token =~= ascii("PING") + seq![SPACE] + token);
    assert(!ascii("PING").contains(SPACE));
    lemma_cut(ascii("PING"), SPACE, token);
    lemma_uncut(token, SPACE);
}

/// A text sent to a channel by `nick!user`, where none of the three names
/// holds a space and the nickname holds no `!`, is read as a message from
/// `nick` in that channel with that very text, marked as a mention exactly
/// when the text holds the local identity's name.
pub proof fn lemma_privmsg_is_read(
    nick: Seq<u8>,
    user: Seq<u8>,
    channel: Seq<u8>,
    text: Seq<u8>,
    network: Seq<u8>,
    local: Seq<u8>,
)
    requires
        !nick.contains(BANG),
        !nick.contains(SPACE),
        !user.contains(SPACE),
        !channel.contains(SPACE),
    ensures
        parse_line(
            seq![COLON] + nick + seq![BANG] + user + ascii(" PRIVMSG ") + channel + ascii(" :")
                + text,
            network,
            local,
        ) == Ok::<InboundView, IRCError>(
            InboundView::Message(
                MessageView {
                    network,
                    channel,
                    user: nick,
                    content: text,
                    state: MessageState::INCOMING,
                    ping: contains_seq(text, local),
                },
            ),
        ),
{
    reveal_strlit(" PRIVMSG ");
    reveal_strlit("PRIVMSG");
    reveal_strlit("PING");
    reveal_strlit(" :");
    let blob = seq![COLON] + nick + seq![BANG] + user;
    let args = channel + seq![SPACE] + (seq![COLON] + text);
    let rest = ascii("PRIVMSG") + seq![SPACE] + args;
    let line = blob + seq![SPACE] + rest;
    assert(line =~= seq![COLON] + nick + seq![BANG] + user + ascii(" PRIVMSG ") + channel + ascii(
        " :",
    ) + text);
    assert(!blob.contains(SPACE)) by {
        if blob.contains(SPACE) {
            let j = choose|j: int| 0 <= j < blob.len() && blob[j] == SPACE;
            if 0 < j <= nick.len() {
                assert(nick[j - 1] == SPACE);
            } else if j > nick.len() + 1 {
                assert(user[j - nick.len() - 2] == SPACE);
            }
        }
    }
    lemma_cut(blob, SPACE, rest);
    assert(!ascii("PRIVMSG").contains(SPACE));
    lemma_cut(ascii("PRIVMSG"), SPACE, args);
    lemma_cut(channel, SPACE, seq![COLON] + text);
    lemma_origin_of_prefix(nick, user);
    assert(ascii("PRIVMSG") != ascii("PING")) by {
        assert(ascii("PRIVMSG").len() != ascii("PING").len());
    }
    assert((seq![COLON] + text).subrange(1, text.len() as int + 1) =~= text);
}

/// The command of a line: its first token, or its second where the first is
/// a source prefix.
pub open spec fn command_of(line: Seq<u8>) -> Seq<u8> {
    if has_prefix(line) {
        match after(line, SPACE) {
            Some(rest) => before(rest, SPACE),
            None => Seq::empty(),
        }
    } else {
        before(line, SPACE)
    }
}

/// A message read from a line is marked as addressed to the local identity
/// exactly when its text holds that identity's name, unless the line sets a
/// topic: a topic is never marked.
pub proof fn lemma_mention_flag(line: Seq<u8>, network: Seq<u8>, nick: Seq<u8>)
    ensures
        match parse_line(line, network, nick) {
            Ok(InboundView::Message(m)) => {
                &&& m.state == MessageState::INCOMING
                &&& m.network == network
                &&& m.ping == (command_of(line) != ascii("TOPIC") && contains_seq(m.content, nick))
            },
            _ => true,
        },
{
    reveal_strlit("PRIVMSG");
    reveal_strlit("NOTICE");
    reveal_strlit("TOPIC");
    assert(ascii("PRIVMSG") != ascii("TOPIC")) by {
        assert(ascii("PRIVMSG").len() != ascii("TOPIC").len());
    }
    assert(ascii("NOTICE") != ascii("TOPIC")) by {
        assert(ascii("NOTICE").len() != ascii("TOPIC").len());
    }
}

/// What follows the command of a line, if anything does.
pub open spec fn arguments_of(line: Seq<u8>) -> Option<Seq<u8>> {
    if has_prefix(line) {
        match after(line, SPACE) {
            Some(rest) => after(rest, SPACE),
            None => None,
        }
    } else {
        after(line, SPACE)
    }
}

/// What a line of the server says to a connection that is authenticating.
#[derive(Debug)]
pub enum Answer {
    /// The capability asked for is granted.
    Acknowledged,
    /// The mechanism is taken: the credentials may follow.
    Continue,
    /// The credentials are accepted.
    Accepted,
    /// The capability or the credentials are refused.
    Refused,
    /// A keepalive, to be answered with this token.
    Ping(Vec<u8>),
    /// Nothing that bears on the authentication.
    Other,
}

/// What an `Answer` holds.
pub enum AnswerView {
    Acknowledged,
    Continue,
    Accepted,
    Refused,
    Ping(Seq<u8>),
    Other,
}

impl View for Answer {
    type V = AnswerView;

    open spec fn view(&self) -> AnswerView {
        match self {
            Answer::Acknowledged => AnswerView::Acknowledged,
            Answer::Continue => AnswerView::Continue,
            Answer::Accepted => AnswerView::Accepted,
            Answer::Refused => AnswerView::Refused,
            Answer::Ping(token) => AnswerView::Ping(token@),
            Answer::Other => AnswerView::Other,
        }
    }
}

/// Whether a command is one of the numerics by which a server refuses the
/// credentials: 902, 904, 905, 906 and 907.
pub open spec fn is_refusal(command: Seq<u8>) -> bool {
    ||| command == ascii("902")
    ||| command == ascii("904")
    ||| command == ascii("905")
    ||| command == ascii("906")
    ||| command == ascii("907")
}

/// What the server answers about a capability: `CAP <target> ACK ...`
/// grants it and `CAP <target> NAK ...` refuses it. The connection asks for
/// one capability only, so a grant is the grant of that one.
pub open spec fn capability_answer(args: Option<Seq<u8>>) -> AnswerView {
    if args is None || after(args->0, SPACE) is None {
        AnswerView::Other
    } else if before(after(args->0, SPACE)->0, SPACE) == ascii("ACK") {
        AnswerView::Acknowledged
    } else if before(after(args->0, SPACE)->0, SPACE) == ascii("NAK") {
        AnswerView::Refused
    } else {
        AnswerView::Other
    }
}

/// What a line says to a connection that is authenticating. The command
/// decides: `CAP` grants or refuses the capability, `AUTHENTICATE +` asks
/// for the credentials, the numeric 903 accepts them, the numerics of
/// `is_refusal` refuse them, and `PING` with a token wants its answer. Every
/// other line says nothing.
pub open spec fn answer_of(line: Seq<u8>) -> AnswerView {
    let command = command_of(line);
    let args = arguments_of(line);
    if command == ascii("CAP") {
        capability_answer(args)
    } else if command == ascii("AUTHENTICATE") {
        if args is Some && before(args->0, SPACE) == ascii("+") {
            AnswerView::Continue
        } else {
            AnswerView::Other
        }
    } else if command == ascii("903") {
        AnswerView::Accepted
    } else if is_refusal(command) {
        AnswerView::Refused
    } else if command == ascii("PING") && args is Some {
        AnswerView::Ping(before(args->0, SPACE))
    } else {
        AnswerView::Other
    }
}

/// A line made of a source prefix, a command and what follows it, the first
/// two without a space, has that command and those arguments.
pub proof fn lemma_command_of_prefixed(server: Seq<u8>, command: Seq<u8>, tail: Seq<u8>)
    requires
        !server.contains(SPACE),
        !command.contains(SPACE),
    ensures
        command_of(seq![COLON] + server + seq![SPACE] + command + seq![SPACE] + tail) == command,
        arguments_of(seq![COLON] + server + seq![SPACE] + command + seq![SPACE] + tail) == Some(
            tail,
        ),
{
    let blob = seq![COLON] + server;
    let rest = command + seq![SPACE] + tail;
    assert(seq![COLON] + server + seq![SPACE] + command + seq![SPACE] + tail =~= blob
        + seq![SPACE] + rest);
    assert(!blob.contains(SPACE)) by {
        if blob.contains(SPACE) {
            let j = choose|j: int| 0 <= j < blob.len() && blob[j] == SPACE;
            assert(server[j - 1] == SPACE);
        }
    }
    lemma_cut(blob, SPACE, rest);
    lemma_cut(command, SPACE, tail);
}

/// Whatever server sends them and whatever text follows, the numeric 903
/// is read as the acceptance of the credentials and the numerics 902, 904,
/// 905, 906 and 907 as their refusal; `CAP <target> ACK` is read as the
/// grant of the capability and `CAP <target> NAK` as its refusal.
pub proof fn lemma_answers_are_read(
    server: Seq<u8>,
    command: Seq<u8>,
    target: Seq<u8>,
    tail: Seq<u8>,
)
    requires
        !server.contains(SPACE),
        !target.contains(SPACE),
    ensures
        answer_of(seq![COLON] + server + seq![SPACE] + ascii("903") + seq![SPACE] + tail)
            is Accepted,
        is_refusal(command) ==> answer_of(
            seq![COLON] + server + seq![SPACE] + command + seq![SPACE] + tail,
        ) is Refused,
        answer_of(
            seq![COLON] + server + seq![SPACE] + ascii("CAP") + seq![SPACE] + (target + seq![SPACE]
                + (ascii("ACK") + seq![SPACE] + tail)),
        ) is Acknowledged,
        answer_of(
            seq![COLON] + server + seq![SPACE] + ascii("CAP") + seq![SPACE] + (target + seq![SPACE]
                + (ascii("NAK") + seq![SPACE] + tail)),
        ) is Refused,
{
    reveal_strlit("CAP");
    reveal_strlit("ACK");
    reveal_strlit("NAK");
    reveal_strlit("AUTHENTICATE");
    reveal_strlit("903");
    reveal_strlit("902");
    reveal_strlit("904");
    reveal_strlit("905");
    reveal_strlit("906");
    reveal_strlit("907");
    assert(!ascii("903").contains(SPACE));
    assert(!ascii("CAP").contains(SPACE));
    assert(!ascii("ACK").contains(SPACE));
    assert(!ascii("NAK").contains(SPACE));
    assert(ascii("903")[0] != ascii("CAP")[0]);
    assert(ascii("903").len() != ascii("AUTHENTICATE").len());
    assert(ascii("ACK")[0] != ascii("NAK")[0]);
    lemma_command_of_prefixed(server, ascii("903"), tail);
    if is_refusal(command) {
        assert(!command.contains(SPACE));
        assert(command[0] != ascii("CAP")[0]);
        assert(command.len() != ascii("AUTHENTICATE").len());
        assert(command[2] != ascii("903")[2]);
        lemma_command_of_prefixed(server, command, tail);
    }
    lemma_command_of_prefixed(
        server,
        ascii("CAP"),
        target + seq![SPACE] + (ascii("ACK") + seq![SPACE] + tail),
    );
    lemma_cut(target, SPACE, ascii("ACK") + seq![SPACE] + tail);
    lemma_cut(ascii("ACK"), SPACE, tail);
    lemma_command_of_prefixed(
        server,
        ascii("CAP"),
        target + seq![SPACE] + (ascii("NAK") + seq![SPACE] + tail),
    );
    lemma_cut(target, SPACE, ascii("NAK") + seq![SPACE] + tail);
    lemma_cut(ascii("NAK"), SPACE, tail);
}

/// Reads what the server answers about a capability.
fn read_capability(args: Option<&[u8]>) -> (answer: Answer)
    ensures
        answer@ == capability_answer(
            match args {
                Some(a) => Some(a@),
                None => None,
            },
        ),
{
    proof {
        reveal_strlit("ACK");
        reveal_strlit("NAK");
    }
    let a = match args {
        Some(a) => a,
        None => {
            return Answer::Other;
        },
    };
    let (_, rest) = split_at_byte(a, SPACE);
    let rest = match rest {
        Some(rest) => rest,
        None => {
            return Answer::Other;
        },
    };
    let (word, _) = split_at_byte(rest, SPACE);
    if is_text(word, "ACK") {
        Answer::Acknowledged
    } else if is_text(word, "NAK") {
        Answer::Refused
    } else {
        Answer::Other
    }
}

/// Reads what a line says to a connection that is authenticating.
pub fn read_answer(line: &[u8]) -> (answer: Answer)
    ensures
        answer@ == answer_of(line@),
{
    proof {
        reveal_strlit("CAP");
        reveal_strlit("AUTHENTICATE");
        reveal_strlit("+");
        reveal_strlit("903");
        reveal_strlit("902");
        reveal_strlit("904");
        reveal_strlit("905");
        reveal_strlit("906");
        reveal_strlit("907");
        reveal_strlit("PING");
        lemma_index_from(line@, SPACE, 0);
    }
    let (first, rest) = split_at_byte(line, SPACE);
    let (command, args) = if first.len() > 0 && first[0] == COLON {
        match rest {
            Some(r) => split_at_byte(r, SPACE),
            None => (slice_subrange(line, 0, 0), None),
        }
    } else {
        (first, rest)
    };
    assert(command@ =~= command_of(line@));
    if is_text(command, "CAP") {
        read_capability(args)
    } else if is_text(command, "AUTHENTICATE") {
        match args {
            Some(a) => {
                let (word, _) = split_at_byte(a, SPACE);
                if is_text(word, "+") {
                    Answer::Continue
                } else {
                    Answer::Other
                }
            },
            None => Answer::Other,
        }
    } else if is_text(command, "903") {
        Answer::Accepted
    } else if is_text(command, "902") || is_text(command, "904") || is_text(command, "905")
        || is_text(command, "906") || is_text(command, "907") {
        Answer::Refused
    } else if is_text(command, "PING") {
        match args {
            Some(a) => {
                let (token, _) = split_at_byte(a, SPACE);
                Answer::Ping(slice_to_vec(token))
            },
            None => Answer::Other,
        }
    } else {
        Answer::Other
    }
}

/// The user that a source prefix names.
pub fn get_username_from_blob(blob: &[u8]) -> (user: Result<Vec<u8>, IRCError>)
    ensures
        match user {
            Ok(name) => origin_user(blob@) == Some(name@),
            Err(e) => origin_user(blob@) is None && e == IRCError::UnknownOrigin,
        },
{
    let bang = find_byte(blob, BANG);
    if bang >= blob.len() {
        return Err(IRCError::UnknownOrigin);
    }
    let name = slice_subrange(blob, 0, bang);
    if name.len() > 0 && name[0] == COLON {
        Ok(slice_to_vec(slice_subrange(name, 1, name.len())))
    } else {
        Ok(slice_to_vec(name))
    }
}

/// Reads the arguments of a `PRIVMSG` or `NOTICE`.
fn read_text(blob: &[u8], args: Option<&[u8]>, network: &[u8], nick: &[u8]) -> (r: Result<
    Inbound,
    IRCError,
>)
    ensures
        match r {
            Ok(inbound) => parse_text(
                blob@,
                match args {
                    Some(a) => Some(a@),
                    None => None,
                },
                network@,
                nick@,
            ) == Ok::<InboundView, IRCError>(inbound@),
            Err(e) => parse_text(
                blob@,
                match args {
                    Some(a) => Some(a@),
                    None => None,
                },
                network@,
                nick@,
            ) == Err::<InboundView, IRCError>(e),
        },
{
    let a = match args {
        Some(a) => a,
        None => { return Err(IRCError::MalformedMessage); },
    };
    let (channel, text) = split_at_byte(a, SPACE);
    let text = match text {
        Some(t) => t,
        None => { return Err(IRCError::MalformedMessage); },
    };
    if text.len() == 0 {
        return Err(IRCError::MalformedMessage);
    }
    let content = slice_to_vec(slice_subrange(text, 1, text.len()));
    let ping = contains(content.as_slice(), nick);
    let user = match get_username_from_blob(blob) {
        Ok(u) => u,
        Err(e) => { return Err(e); },
    };
    Ok(
        Inbound::Message(
            BouncerMessage {
                network: slice_to_vec(network),
                channel: slice_to_vec(channel),
                user,
                content,
                state: MessageState::INCOMING,
                ping,
            },
        ),
    )
}

/// Reads the arguments of a `TOPIC`.
fn read_topic(blob: &[u8], args: Option<&[u8]>, network: &[u8]) -> (r: Result<Inbound, IRCError>)
    ensures
        match r {
            Ok(inbound) => parse_topic(
                blob@,
                match args {
                    Some(a) => Some(a@),
                    None => None,
                },
                network@,
            ) == Ok::<InboundView, IRCError>(inbound@),
            Err(e) => parse_topic(
                blob@,
                match args {
                    Some(a) => Some(a@),
                    None => None,
                },
                network@,
            ) == Err::<InboundView, IRCError>(e),
        },
{
    let a = match args {
        Some(a) => a,
        None => { return Err(IRCError::MalformedMessage); },
    };
    let (channel, topic) = split_at_byte(a, SPACE);
    let user = match get_username_from_blob(blob) {
        Ok(u) => u,
        Err(e) => { return Err(e); },
    };
    let content = match topic {
        Some(t) => slice_to_vec(t),
        None => Vec::new(),
    };
    Ok(
        Inbound::Message(
            BouncerMessage {
                network: slice_to_vec(network),
                channel: slice_to_vec(channel),
                user,
                content,
                state: MessageState::INCOMING,
                ping: false,
            },
        ),
    )
}

/// Reads the command and its arguments.
fn read_command(blob: Option<&[u8]>, rest: &[u8], network: &[u8], nick: &[u8]) -> (r: Result<
    Inbound,
    IRCError,
>)
    ensures
        match r {
            Ok(inbound) => parse_command(
                match blob {
                    Some(b) => Some(b@),
                    None => None,
                },
                rest@,
                network@,
                nick@,
            ) == Ok::<InboundView, IRCError>(inbound@),
            Err(e) => parse_command(
                match blob {
                    Some(b) => Some(b@),
                    None => None,
                },
                rest@,
                network@,
                nick@,
            ) == Err::<InboundView, IRCError>(e),
        },
{
    proof {
        reveal_strlit("PING");
        reveal_strlit("PRIVMSG");
        reveal_strlit("NOTICE");
        reveal_strlit("TOPIC");
    }
    let (command, args) = split_at_byte(rest, SPACE);
    if is_text(command, "PING") {
        return match args {
            Some(a) => {
                let (token, _) = split_at_byte(a, SPACE);
                Ok(Inbound::Pong(slice_to_vec(token)))
            },
            None => Err(IRCError::InvalidPing),
        };
    }
    match blob {
        Some(b) => {
            if is_text(command, "PRIVMSG") || is_text(command, "NOTICE") {
                read_text(b, args, network, nick)
            } else if is_text(command, "TOPIC") {
                read_topic(b, args, network)
            } else {
                Ok(Inbound::Other)
            }
        },
        None => Ok(Inbound::Other),
    }
}

/// Reads one line, already without its terminator, on the connection to
/// `network` where the local identity is `nick`.
pub fn read_line(line: &[u8], network: &[u8], nick: &[u8]) -> (r: Result<Inbound, IRCError>)
    ensures
        match r {
            Ok(inbound) => parse_line(line@, network@, nick@) == Ok::<InboundView, IRCError>(
                inbound@,
            ),
            Err(e) => parse_line(line@, network@, nick@) == Err::<InboundView, IRCError>(e),
        },
{
    let (first, rest) = split_at_byte(line, SPACE);
    if first.len() == 0 {
        return Err(IRCError::EmptyLine);
    }
    proof {
        lemma_index_from(line@, SPACE, 0);
        assert(first@[0] == line@[0]);
    }
    if first[0] == COLON {
        match rest {
            Some(r) => read_command(Some(first), r, network, nick),
            None => Ok(Inbound::Other),
        }
    } else {
        read_command(None, line, network, nick)
    }
}

} // verus!

//! Frames: complete protocol lines, ended by CR LF and bounded in length.
//! Decoding strips the terminator from a line as read; encoding cuts a text
//! into as many `PRIVMSG` frames as the length ceiling asks for.

use crate::error::IRCError;
use crate::text::{ascii, ascii_bytes, NEWLINE, SPACE};
use vstd::arithmetic::div_mod::lemma_fundamental_div_mod_converse;
use vstd::prelude::*;
use vstd::string::*;

verus! {

/// No frame may be longer than this, terminator included.
pub const HARD_CEILING: usize = 512;

/// The length that frames carrying text are cut to: servers were seen to
/// truncate below the protocol's own limit.
pub const EFFECTIVE_CEILING: usize = 446;

/// The two bytes that end a frame.
pub open spec fn crlf() -> Seq<u8> {
    seq![13u8, 10u8]
}

/// Whether a byte string is a frame: a line that ends with the terminator
/// and is no longer than the protocol allows.
pub open spec fn is_frame(frame: Seq<u8>) -> bool {
    2 <= frame.len() <= HARD_CEILING && frame.subrange(frame.len() - 2, frame.len() as int)
        == crlf()
}

/// A sequence of byte strings, as held in nested vectors.
pub open spec fn lines_of(v: Seq<Vec<u8>>) -> Seq<Seq<u8>> {
    Seq::new(v.len(), |i: int| v[i]@)
}

/// The parts joined in order, with nothing between them.
pub open spec fn join(parts: Seq<Seq<u8>>) -> Seq<u8>
    decreases parts.len(),
{
    if parts.len() == 0 {
        Seq::empty()
    } else {
        join(parts.drop_last()) + parts.last()
    }
}

/// The text with every newline turned into one space: a frame holds one line.
pub open spec fn collapse_newlines(text: Seq<u8>) -> Seq<u8> {
    Seq::new(
        text.len(),
        |i: int|
            if text[i] == NEWLINE {
                SPACE
            } else {
                text[i]
            },
    )
}

/// What every frame that carries text to `channel` begins with.
pub open spec fn privmsg_prefix(channel: Seq<u8>) -> Seq<u8> {
    ascii("PRIVMSG ") + channel + ascii(" :")
}

/// How many bytes of text fit in one frame under `ceiling`, behind a prefix
/// of `prefix_len` bytes and before the terminator.
pub open spec fn budget(ceiling: int, prefix_len: int) -> int {
    ceiling - 2 - prefix_len
}

/// `len / budget`, rounded up.
pub open spec fn chunk_count(len: int, budget: int) -> int {
    (len + budget - 1) / budget
}

/// The `k`-th piece of `text` when it is cut every `budget` bytes.
pub open spec fn chunk(text: Seq<u8>, budget: int, k: int) -> Seq<u8> {
    text.subrange(
        k * budget,
        if (k + 1) * budget < text.len() {
            (k + 1) * budget
        } else {
            text.len() as int
        },
    )
}

/// The frames that carry `text` to `channel` under `ceiling`, in order.
pub open spec fn privmsg_frames(channel: Seq<u8>, text: Seq<u8>, ceiling: int) -> Seq<Seq<u8>> {
    let body = collapse_newlines(text);
    let room = budget(ceiling, privmsg_prefix(channel).len() as int);
    Seq::new(
        chunk_count(body.len() as int, room) as nat,
        |k: int| privmsg_prefix(channel) + chunk(body, room, k) + crlf(),
    )
}

/// The text that a frame carries behind a prefix of `prefix_len` bytes.
pub open spec fn payload(frame: Seq<u8>, prefix_len: int) -> Seq<u8> {
    frame.subrange(prefix_len, frame.len() - 2)
}

/// A line as read from the stream, without its terminator: the last two
/// bytes are dropped from a read of two bytes or more.
pub open spec fn strip_terminator(raw: Seq<u8>) -> Seq<u8> {
    if raw.len() > 1 {
        raw.subrange(0, raw.len() - 2)
    } else {
        raw
    }
}

/// Stripping the terminator gives back the line that was framed.
pub proof fn lemma_strip_undoes_framing(line: Seq<u8>)
    ensures
        strip_terminator(line + crlf()) == line,
{
    assert((line + crlf()).subrange(0, line.len() as int) =~= line);
}

/// `n` is `len / room` rounded up when `n` pieces of `room` bytes cover `len`
/// and one piece fewer does not.
pub proof fn lemma_chunk_count(len: int, room: int, n: int)
    requires
        room >= 1,
        len >= 0,
        n >= 0,
        n * room >= len,
        n == 0 || (n - 1) * room < len,
    ensures
        chunk_count(len, room) == n,
{
    if n == 0 {
        assert(len == 0) by (nonlinear_arith)
            requires
                n == 0,
                n * room >= len,
                len >= 0,
        ;
        lemma_fundamental_div_mod_converse(room - 1, room, 0, room - 1);
    } else {
        let r = len + room - 1 - n * room;
        assert(n * room == (n - 1) * room + room) by (nonlinear_arith);
        lemma_fundamental_div_mod_converse(len + room - 1, room, n, r);
    }
}

/// The first `n` pieces of a text, joined, are what the text holds before the
/// end of the `n`-th piece.
pub proof fn lemma_join_chunks(text: Seq<u8>, room: int, n: int)
    requires
        room >= 1,
        n >= 0,
        n == 0 || (n - 1) * room < text.len(),
    ensures
        join(Seq::new(n as nat, |k: int| chunk(text, room, k))) == text.subrange(
            0,
            if n * room < text.len() {
                n * room
            } else {
                text.len() as int
            },
        ),
    decreases n,
{
    if n > 0 {
        let parts = Seq::new(n as nat, |k: int| chunk(text, room, k));
        let fewer = Seq::new((n - 1) as nat, |k: int| chunk(text, room, k));
        assert(parts.drop_last() =~= fewer);
        assert(n * room == (n - 1) * room + room) by (nonlinear_arith);
        if n - 1 > 0 {
            assert((n - 2) * room < (n - 1) * room) by (nonlinear_arith)
                requires
                    room >= 1,
            ;
        }
        lemma_join_chunks(text, room, n - 1);
    }
}

/// Cutting a text of `L` bytes under a ceiling `C`, behind a prefix of `P`
/// bytes, gives `L / (C - 2 - P)` frames, rounded up. No frame is longer than
/// `C`, each begins with the prefix and ends with the terminator, and what
/// the frames carry between the two, joined in order, is the text with its
/// newlines turned into spaces.
pub proof fn lemma_segmentation(channel: Seq<u8>, text: Seq<u8>, ceiling: int)
    requires
        budget(ceiling, privmsg_prefix(channel).len() as int) >= 1,
    ensures
        ({
            let frames = privmsg_frames(channel, text, ceiling);
            let prefix = privmsg_prefix(channel);
            let room = ceiling - 2 - prefix.len();
            &&& frames.len() == chunk_count(text.len() as int, room)
            &&& frames.len() * room >= text.len()
            &&& frames.len() == 0 || (frames.len() - 1) * room < text.len()
            &&& forall|k: int|
                0 <= k < frames.len() ==> {
                    &&& prefix.len() + 2 < (#[trigger] frames[k]).len() <= ceiling
                    &&& frames[k].subrange(0, prefix.len() as int) == prefix
                    &&& frames[k].subrange(frames[k].len() - 2, frames[k].len() as int) == crlf()
                }
            &&& join(Seq::new(frames.len(), |k: int| payload(frames[k], prefix.len() as int)))
                == collapse_newlines(text)
        }),
{
    let frames = privmsg_frames(channel, text, ceiling);
    let prefix = privmsg_prefix(channel);
    let room = ceiling - 2 - prefix.len();
    let body = collapse_newlines(text);
    let len = body.len() as int;
    let n = chunk_count(len, room);
    lemma_ceiling_bounds(len, room);
    assert forall|k: int| 0 <= k < frames.len() implies {
        &&& prefix.len() + 2 < (#[trigger] frames[k]).len() <= ceiling
        &&& frames[k].subrange(0, prefix.len() as int) == prefix
        &&& frames[k].subrange(frames[k].len() - 2, frames[k].len() as int) == crlf()
        &&& payload(frames[k], prefix.len() as int) == chunk(body, room, k)
    } by {
        lemma_chunk_bounds(len, room, n, k);
    }
    let carried = Seq::new(frames.len(), |k: int| payload(frames[k], prefix.len() as int));
    let pieces = Seq::new(n as nat, |k: int| chunk(body, room, k));
    assert(carried =~= pieces);
    lemma_join_chunks(body, room, n);
}

/// `len / room` rounded up is the least number of pieces of `room` bytes
/// that cover `len`.
pub proof fn lemma_ceiling_bounds(len: int, room: int)
    requires
        room >= 1,
        len >= 0,
    ensures
        chunk_count(len, room) >= 0,
        chunk_count(len, room) * room >= len,
        chunk_count(len, room) == 0 || (chunk_count(len, room) - 1) * room < len,
{
    let x = len + room - 1;
    let n = x / room;
    vstd::arithmetic::div_mod::lemma_fundamental_div_mod(x, room);
    vstd::arithmetic::div_mod::lemma_mod_bound(x, room);
    vstd::arithmetic::div_mod::lemma_div_pos_is_pos(x, room);
    assert((n - 1) * room == n * room - room) by (nonlinear_arith);
}

/// The `k`-th of `n` pieces is not empty and no longer than `room`.
pub proof fn lemma_chunk_bounds(len: int, room: int, n: int, k: int)
    requires
        room >= 1,
        len >= 0,
        n == chunk_count(len, room),
        0 <= k < n,
    ensures
        0 <= k * room < len,
        (k + 1) * room == k * room + room,
{
    lemma_ceiling_bounds(len, room);
    assert((k + 1) * room == k * room + room) by (nonlinear_arith);
    assert(k * room <= (n - 1) * room) by (nonlinear_arith)
        requires
            k <= n - 1,
            room >= 1,
    ;
    assert(0 <= k * room) by (nonlinear_arith)
        requires
            0 <= k,
            room >= 1,
    ;
}

/// Takes the terminator off a line as it was read. A read of no bytes means
/// that the stream has ended.
pub fn receive_incoming_data(raw: &[u8]) -> (line: Result<Vec<u8>, IRCError>)
    ensures
        match line {
            Ok(l) => raw@.len() > 0 && l@ == strip_terminator(raw@),
            Err(e) => raw@.len() == 0 && e == IRCError::StreamClosed,
        },
{
    let size: usize = raw.len();
    if size == 0 {
        return Err(IRCError::StreamClosed);
    }
    let keep: usize = if size > 1 {
        size - 2
    } else {
        size
    };
    let mut line: Vec<u8> = Vec::new();
    let mut i: usize = 0;
    while i < keep
        invariant
            0 <= i <= keep <= raw@.len(),
            line@ == raw@.subrange(0, i as int),
        decreases keep - i,
    {
        line.push(raw[i]);
        i += 1;
    }
    Ok(line)
}

/// Accepts a message for the wire if it respects the protocol's length limit.
pub fn send_raw(irc_message: Vec<u8>) -> (sent: Result<Vec<u8>, IRCError>)
    ensures
        match sent {
            Ok(m) => irc_message@.len() <= HARD_CEILING && m@ == irc_message@,
            Err(e) => irc_message@.len() > HARD_CEILING && e == IRCError::MessageTooLong,
        },
{
    if irc_message.len() <= HARD_CEILING {
        Ok(irc_message)
    } else {
        Err(IRCError::MessageTooLong)
    }
}

/// The text with its newlines turned into spaces.
pub fn collapse(text: &[u8]) -> (body: Vec<u8>)
    ensures
        body@ == collapse_newlines(text@),
{
    let mut body: Vec<u8> = Vec::new();
    let mut i: usize = 0;
    while i < text.len()
        invariant
            0 <= i <= text@.len(),
            body@ == collapse_newlines(text@).subrange(0, i as int),
        decreases text.len() - i,
    {
        let b: u8 = if text[i] == NEWLINE {
            SPACE
        } else {
            text[i]
        };
        body.push(b);
        i += 1;
    }
    body
}

/// Cuts `text` into the `PRIVMSG` frames that carry it to `channel`, none
/// longer than `ceiling`. The cut is by bytes and pays no attention to words
/// or characters. An empty text gives no frame.
pub fn encode_privmsg(channel: &[u8], text: &[u8], ceiling: usize) -> (encoded: Result<
    Vec<Vec<u8>>,
    IRCError,
>)
    ensures
        match encoded {
            Ok(frames) => {
                &&& ceiling <= HARD_CEILING
                &&& budget(ceiling as int, privmsg_prefix(channel@).len() as int) >= 1
                &&& lines_of(frames@) == privmsg_frames(channel@, text@, ceiling as int)
            },
            Err(e) => if ceiling > HARD_CEILING {
                e == IRCError::CeilingTooHigh
            } else {
                e == IRCError::NoRoom && budget(
                    ceiling as int,
                    privmsg_prefix(channel@).len() as int,
                ) < 1
            },
        },
{
    proof {
        reveal_strlit("PRIVMSG ");
        reveal_strlit(" :");
    }
    if ceiling > HARD_CEILING {
        return Err(IRCError::CeilingTooHigh);
    }
    if channel.len() >= HARD_CEILING {
        return Err(IRCError::NoRoom);
    }
    let mut prefix = ascii_bytes("PRIVMSG ");
    prefix.extend_from_slice(channel);
    let colon = ascii_bytes(" :");
    prefix.extend_from_slice(colon.as_slice());
    assert(prefix@ == privmsg_prefix(channel@));
    if ceiling < prefix.len() + 3 {
        return Err(IRCError::NoRoom);
    }
    let room: usize = ceiling - 2 - prefix.len();
    let body = collapse(text);
    let len: usize = body.len();
    let mut frames: Vec<Vec<u8>> = Vec::new();
    let mut pos: usize = 0;
    while pos < len
        invariant
            room >= 1,
            len == body@.len(),
            prefix@.len() + room + 2 <= HARD_CEILING,
            0 <= pos <= len,
            pos == if frames@.len() * room < len {
                frames@.len() * room
            } else {
                len as int
            },
            frames@.len() == 0 || (frames@.len() - 1) * room < len,
            forall|k: int|
                0 <= k < frames@.len() ==> (#[trigger] frames@[k])@ == prefix@ + chunk(
                    body@,
                    room as int,
                    k,
                ) + crlf(),
        decreases len - pos,
    {
        let ghost n = frames@.len() as int;
        let end: usize = if len - pos > room {
            pos + room
        } else {
            len
        };
        assert((n + 1) * room == n * room + room) by (nonlinear_arith);
        let mut frame = prefix.clone();
        let mut i: usize = pos;
        while i < end
            invariant
                pos <= i <= end <= len,
                len == body@.len(),
                frame@ == prefix@ + body@.subrange(pos as int, i as int),
            decreases end - i,
        {
            frame.push(body[i]);
            i += 1;
        }
        frame.push(13u8);
        frame.push(10u8);
        frames.push(frame);
        pos = end;
    }
    proof {
        lemma_chunk_count(len as int, room as int, frames@.len() as int);
    }
    Ok(frames)
}

} // verus!

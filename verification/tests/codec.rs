use irc_bouncer::codec::{
    collapse, encode_privmsg, receive_incoming_data, send_raw, EFFECTIVE_CEILING, HARD_CEILING,
};
use irc_bouncer::error::IRCError;

fn payload_of(frame: &[u8], prefix: &[u8]) -> Vec<u8> {
    assert!(frame.starts_with(prefix));
    assert!(frame.ends_with(b"\r\n"));
    frame[prefix.len()..frame.len() - 2].to_vec()
}

#[test]
fn short_text_is_one_frame() {
    let frames = encode_privmsg(b"#test", b"hello world", EFFECTIVE_CEILING).unwrap();
    assert_eq!(frames, vec![b"PRIVMSG #test :hello world\r\n".to_vec()]);
}

#[test]
fn empty_text_gives_no_frame() {
    let frames = encode_privmsg(b"#test", b"", EFFECTIVE_CEILING).unwrap();
    assert!(frames.is_empty());
}

#[test]
fn thousand_bytes_are_cut_in_three() {
    let text: Vec<u8> = (0..1000u32).map(|i| b'a' + (i % 26) as u8).collect();
    let frames = encode_privmsg(b"#test", &text, EFFECTIVE_CEILING).unwrap();
    assert_eq!(frames.len(), 3);
    let prefix = b"PRIVMSG #test :";
    let mut joined: Vec<u8> = Vec::new();
    for frame in &frames {
        assert!(frame.len() <= EFFECTIVE_CEILING);
        joined.extend_from_slice(&payload_of(frame, prefix));
    }
    assert_eq!(joined, text);
    assert_eq!(frames[0].len(), 446);
    assert_eq!(frames[1].len(), 446);
    assert_eq!(frames[2].len(), 15 + 142 + 2);
    assert_eq!(payload_of(&frames[0], prefix), text[..429].to_vec());
    assert_eq!(payload_of(&frames[1], prefix), text[429..858].to_vec());
    assert_eq!(payload_of(&frames[2], prefix), text[858..].to_vec());
}

#[test]
fn frame_count_is_length_over_budget_rounded_up() {
    // ceiling 30, prefix "PRIVMSG #c :" of 12 bytes: 16 bytes of text per frame
    for (len, count) in [(0usize, 0usize), (1, 1), (15, 1), (16, 1), (17, 2), (32, 2), (33, 3)] {
        let text = vec![b'x'; len];
        let frames = encode_privmsg(b"#c", &text, 30).unwrap();
        assert_eq!(frames.len(), count);
        for frame in &frames {
            assert!(frame.len() <= 30);
        }
    }
}

#[test]
fn text_of_exactly_one_budget_fills_one_frame() {
    let text = vec![b'y'; 16];
    let frames = encode_privmsg(b"#c", &text, 30).unwrap();
    assert_eq!(frames.len(), 1);
    assert_eq!(frames[0].len(), 30);
}

#[test]
fn newlines_become_single_spaces() {
    assert_eq!(collapse(b"a\nb\n\nc"), b"a b  c".to_vec());
    let frames = encode_privmsg(b"#test", b"one\ntwo", EFFECTIVE_CEILING).unwrap();
    assert_eq!(frames, vec![b"PRIVMSG #test :one two\r\n".to_vec()]);
}

#[test]
fn cut_pays_no_attention_to_characters() {
    // "é" is two bytes; a budget of 1 cuts it in the middle
    let frames = encode_privmsg(b"#c", "é".as_bytes(), 15).unwrap();
    assert_eq!(frames.len(), 2);
    assert_eq!(frames[0], b"PRIVMSG #c :\xc3\r\n".to_vec());
    assert_eq!(frames[1], b"PRIVMSG #c :\xa9\r\n".to_vec());
}

#[test]
fn channel_that_leaves_no_room_is_refused() {
    assert_eq!(encode_privmsg(b"#c", b"x", 14), Err(IRCError::NoRoom));
    assert!(encode_privmsg(b"#c", b"x", 15).is_ok());
    let long = vec![b'#'; 600];
    assert_eq!(encode_privmsg(&long, b"x", EFFECTIVE_CEILING), Err(IRCError::NoRoom));
    let tight = vec![b'#'; 434];
    assert_eq!(encode_privmsg(&tight, b"x", EFFECTIVE_CEILING), Err(IRCError::NoRoom));
    let fits = vec![b'#'; 433];
    assert_eq!(encode_privmsg(&fits, b"xy", EFFECTIVE_CEILING).unwrap().len(), 2);
}

#[test]
fn ceiling_above_the_protocol_limit_is_refused() {
    assert_eq!(encode_privmsg(b"#c", b"x", 513), Err(IRCError::CeilingTooHigh));
    assert!(encode_privmsg(b"#c", b"x", HARD_CEILING).is_ok());
}

#[test]
fn terminator_is_stripped() {
    assert_eq!(receive_incoming_data(b"PING :x\r\n"), Ok(b"PING :x".to_vec()));
    assert_eq!(receive_incoming_data(b"\r\n"), Ok(Vec::new()));
}

#[test]
fn read_of_one_byte_is_kept() {
    assert_eq!(receive_incoming_data(b"\n"), Ok(b"\n".to_vec()));
}

#[test]
fn empty_read_ends_the_stream() {
    assert_eq!(receive_incoming_data(b""), Err(IRCError::StreamClosed));
}

#[test]
fn message_within_the_limit_is_accepted() {
    let m = vec![b'a'; 512];
    assert_eq!(send_raw(m.clone()), Ok(m));
}

#[test]
fn message_over_the_limit_is_refused() {
    assert_eq!(send_raw(vec![b'a'; 513]), Err(IRCError::MessageTooLong));
}

use std::io::{Error, ErrorKind};
use utf8_decode::{
    decode_all, feed, finish, ByteSource, DecodeState, Step, Utf8Decoder, REPLACEMENT_CHARACTER,
};

/// Collects what a decoder over in-memory bytes yields until the end of the stream.
fn decode_stream(bytes: &[u8]) -> Vec<char> {
    let mut decoder = Utf8Decoder::new(bytes);
    let mut out = Vec::new();
    while let Some(item) = decoder.next() {
        match item {
            Ok(c) => out.push(c),
            Err(e) => match e {},
        }
    }
    out
}

#[test]
fn every_ascii_byte_decodes_to_itself() {
    for b in 0u8..0x80 {
        let bytes = [b];
        let mut decoder = Utf8Decoder::new(&bytes[..]);
        assert_eq!(decoder.next().map(|r| r.unwrap()), Some(b as char));
        assert!(decoder.next().is_none());
    }
}

#[test]
fn every_scalar_round_trips() {
    let mut buf = [0u8; 4];
    for v in 0u32..=0x10FFFF {
        if let Some(c) = char::from_u32(v) {
            let bytes = c.encode_utf8(&mut buf).as_bytes();
            assert_eq!(decode_stream(bytes), vec![c]);
        }
    }
}

#[test]
fn multi_byte_character_decodes_once_then_resumes() {
    assert_eq!(decode_stream("€x".as_bytes()), vec!['€', 'x']);
    assert_eq!(decode_all("\u{10FFFF}\u{80}\u{7FF}\u{800}".as_bytes()), vec![
        '\u{10FFFF}',
        '\u{80}',
        '\u{7FF}',
        '\u{800}'
    ]);
}

#[test]
fn overlong_leader_advances_one_byte() {
    assert_eq!(decode_stream(&[0x61, 0xC0, 0x80, 0x62]), vec![
        'a',
        REPLACEMENT_CHARACTER,
        REPLACEMENT_CHARACTER,
        'b'
    ]);
    assert_eq!(decode_stream(&[0xC1, 0x62]), vec![REPLACEMENT_CHARACTER, 'b']);
}

#[test]
fn rejected_continuation_byte_is_dropped() {
    assert_eq!(decode_stream(&[0xC2, 0x41, 0x42]), vec![REPLACEMENT_CHARACTER, 'B']);
    assert_eq!(decode_stream(&[0xE2, 0x82, 0x41, 0x42]), vec![REPLACEMENT_CHARACTER, 'B']);
}

#[test]
fn truncated_sequence_yields_replacement() {
    let bytes = [0xE2u8, 0x82];
    let mut decoder = Utf8Decoder::new(&bytes[..]);
    assert!(matches!(decoder.next(), Some(Ok(REPLACEMENT_CHARACTER))));
    assert!(decoder.next().is_none());
    assert_eq!(decode_all(&[0xF0, 0x90]), vec![REPLACEMENT_CHARACTER]);
}

#[test]
fn stray_continuation_and_high_bytes_are_invalid_leaders() {
    assert_eq!(decode_stream(&[0x80, 0xBF, 0xF8, 0xFF]), vec![REPLACEMENT_CHARACTER; 4]);
}

#[test]
fn values_beyond_last_code_point_are_replaced() {
    assert_eq!(decode_stream(&[0xF4, 0x90, 0x80, 0x80]), vec![REPLACEMENT_CHARACTER]);
    assert_eq!(decode_stream(&[0xF7, 0xBF, 0xBF, 0xBF, 0x61]), vec![REPLACEMENT_CHARACTER, 'a']);
}

#[test]
fn longer_overlong_forms_are_accepted() {
    assert_eq!(decode_stream(&[0xE0, 0x80, 0xAF]), vec!['/']);
    assert_eq!(decode_stream(&[0xF0, 0x82, 0x82, 0xAC]), vec!['€']);
}

#[test]
fn empty_input_is_end_of_stream() {
    let mut decoder = Utf8Decoder::new(&[][..]);
    assert!(decoder.next().is_none());
    assert!(decode_all(&[]).is_empty());
}

#[test]
fn decode_all_matches_examples() {
    assert_eq!(decode_all(&[0x61]), vec!['a']);
    assert_eq!(decode_all(&[0x61, 0xC2, 0xA3]), vec!['a', '£']);
    assert_eq!(decode_all(&[0xE2, 0x82, 0xAC, 0xF0, 0x90, 0x8D, 0x88]), vec![
        '€',
        '\u{10348}'
    ]);
    assert_eq!(decode_all(&[0xFF]), vec![REPLACEMENT_CHARACTER]);
    assert_eq!(decode_all(&[0xC0, 0xC1]), vec![REPLACEMENT_CHARACTER, REPLACEMENT_CHARACTER]);
    assert_eq!(decode_all(&[0xED, 0xA0, 0x80]), vec![REPLACEMENT_CHARACTER]);
}

#[test]
fn feed_builds_code_point_bits() {
    assert_eq!(feed(DecodeState::Start, 0x41), Step::Done('A'));
    assert_eq!(feed(DecodeState::Start, 0xE2), Step::More(DecodeState::Pending {
        remaining: 2,
        acc: 0x2000
    }));
    assert_eq!(
        feed(DecodeState::Pending { remaining: 2, acc: 0x2000 }, 0x82),
        Step::More(DecodeState::Pending { remaining: 1, acc: 0x2080 })
    );
    assert_eq!(feed(DecodeState::Pending { remaining: 1, acc: 0x2080 }, 0xAC), Step::Done('€'));
    assert_eq!(
        feed(DecodeState::Pending { remaining: 1, acc: 0xD800 }, 0x80),
        Step::Done(REPLACEMENT_CHARACTER)
    );
    assert_eq!(feed(DecodeState::Pending { remaining: 1, acc: 0x80 }, 0x41), Step::Done(
        REPLACEMENT_CHARACTER
    ));
}

#[test]
fn finish_tells_end_from_truncation() {
    assert_eq!(finish(DecodeState::Start), None);
    assert_eq!(finish(DecodeState::Pending { remaining: 1, acc: 0x80 }), Some(
        REPLACEMENT_CHARACTER
    ));
}

/// Hands out its bytes, then fails.
struct FailingAfter {
    bytes: Vec<u8>,
    pos: usize,
}

impl ByteSource for FailingAfter {
    type Error = Error;

    fn next_byte(&mut self) -> Option<Result<u8, Error>> {
        if self.pos < self.bytes.len() {
            self.pos += 1;
            Some(Ok(self.bytes[self.pos - 1]))
        } else {
            Some(Err(Error::from(ErrorKind::UnexpectedEof)))
        }
    }
}

#[test]
fn source_failure_is_propagated_not_replaced() {
    let mut decoder = Utf8Decoder::new(FailingAfter { bytes: vec![0x61], pos: 0 });
    assert!(matches!(decoder.next(), Some(Ok('a'))));
    assert!(matches!(decoder.next(), Some(Err(e)) if e.kind() == ErrorKind::UnexpectedEof));

    let mut decoder = Utf8Decoder::new(FailingAfter { bytes: vec![0xE2, 0x82], pos: 0 });
    assert!(matches!(decoder.next(), Some(Err(e)) if e.kind() == ErrorKind::UnexpectedEof));
}

#[test]
fn failing_first_read_yields_no_character() {
    let mut decoder = Utf8Decoder::new(FailingAfter { bytes: vec![], pos: 0 });
    assert!(matches!(decoder.next(), Some(Err(_))));
}

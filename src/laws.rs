//! Properties of the decoding model that hold for all inputs.
use vstd::prelude::*;
use vstd::utf8::{encode_scalar, is_scalar};
use crate::decoder::next_outcome;
use crate::utf8_step::{
    decode_first, decode_from, decode_seq, feed_spec, is_continuation, run, runs_dry, scalar_or_replacement, weight, DecodeState, Step,
    REPLACEMENT_CHARACTER,
};

verus! {

proof fn lemma_width_2_bits(p: u32)
    by (bit_vector)
    requires
        0x80 <= p <= 0x7FF,
    ensures
        0xC2 <= (0xC0 | ((p >> 6u32) & 0x1F) as u8),
        (0xC0 | ((p >> 6u32) & 0x1F) as u8) <= 0xDF,
        0x80 <= (0x80 | (p & 0x3F) as u8) && (0x80 | (p & 0x3F) as u8) <= 0xBF,
        ((((0xC0 | ((p >> 6u32) & 0x1F) as u8) - 0xC0) * 64) as u32) + ((0x80 | (p & 0x3F) as u8)
            - 0x80) as u32 == p,
{
}

proof fn lemma_width_3_bits(p: u32)
    by (bit_vector)
    requires
        0x800 <= p <= 0xFFFF,
    ensures
        0xE0 <= (0xE0 | ((p >> 12u32) & 0x0F) as u8),
        (0xE0 | ((p >> 12u32) & 0x0F) as u8) <= 0xEF,
        0x80 <= (0x80 | ((p >> 6u32) & 0x3F) as u8) && (0x80 | ((p >> 6u32) & 0x3F) as u8)
            <= 0xBF,
        0x80 <= (0x80 | (p & 0x3F) as u8) && (0x80 | (p & 0x3F) as u8) <= 0xBF,
        ((((0xE0 | ((p >> 12u32) & 0x0F) as u8) - 0xE0) * 4096) as u32) + ((0x80 | ((p >> 6u32)
            & 0x3F) as u8) - 0x80) as u32 * 64 + ((0x80 | (p & 0x3F) as u8) - 0x80) as u32 == p,
{
}

proof fn lemma_width_4_bits(p: u32)
    by (bit_vector)
    requires
        0x10000 <= p <= 0x10FFFF,
    ensures
        0xF0 <= (0xF0 | ((p >> 18u32) & 0x07) as u8),
        (0xF0 | ((p >> 18u32) & 0x07) as u8) <= 0xF7,
        0x80 <= (0x80 | ((p >> 12u32) & 0x3F) as u8) && (0x80 | ((p >> 12u32) & 0x3F) as u8)
            <= 0xBF,
        0x80 <= (0x80 | ((p >> 6u32) & 0x3F) as u8) && (0x80 | ((p >> 6u32) & 0x3F) as u8)
            <= 0xBF,
        0x80 <= (0x80 | (p & 0x3F) as u8) && (0x80 | (p & 0x3F) as u8) <= 0xBF,
        ((((0xF0 | ((p >> 18u32) & 0x07) as u8) - 0xF0) * 262144) as u32) + ((0x80 | ((p
            >> 12u32) & 0x3F) as u8) - 0x80) as u32 * 4096 + ((0x80 | ((p >> 6u32) & 0x3F) as u8)
            - 0x80) as u32 * 64 + ((0x80 | (p & 0x3F) as u8) - 0x80) as u32 == p,
{
}

/// Decoding the UTF-8 encoding of a scalar value `p`, whatever follows it,
/// takes exactly the bytes of that encoding and yields `p`.
#[verifier::spinoff_prover]
pub proof fn lemma_encoded_scalar_decodes_first(p: u32, rest: Seq<u8>)
    requires
        is_scalar(p),
    ensures
        decode_first(encode_scalar(p) + rest) == (Some(p as char), encode_scalar(p).len() as int),
        !runs_dry(DecodeState::Start, encode_scalar(p) + rest, 0),
{
    let e = encode_scalar(p);
    let bytes = e + rest;
    reveal_with_fuel(run, 5);
    reveal_with_fuel(runs_dry, 5);
    if p <= 0x7F {
        assert((p & 0x7F) as u8 == p as u8 && p as u8 as u32 == p) by (bit_vector)
            requires
                p <= 0x7F,
        ;
        assert(bytes[0] == e[0]);
    } else if p <= 0x7FF {
        lemma_width_2_bits(p);
        assert(bytes[0] == e[0] && bytes[1] == e[1]);
    } else if p <= 0xFFFF {
        lemma_width_3_bits(p);
        assert(bytes[0] == e[0] && bytes[1] == e[1] && bytes[2] == e[2]);
    } else {
        lemma_width_4_bits(p);
        assert(bytes[0] == e[0] && bytes[1] == e[1] && bytes[2] == e[2] && bytes[3] == e[3]);
    }
}

/// With no byte ahead there is no character: the end of the stream.
pub proof fn lemma_end_of_stream()
    ensures
        decode_first(Seq::empty()) == (None::<char>, 0int),
{
}

/// A byte below `0x80` decodes to the character of that value and takes only
/// itself; on its own, nothing follows it.
pub proof fn lemma_ascii_byte(b: u8, tail: Seq<u8>)
    requires
        b < 0x80,
    ensures
        decode_first(seq![b] + tail) == (Some(b as char), 1int),
        decode_seq(seq![b]) == seq![b as char],
{
    assert((seq![b] + tail)[0] == b);
    reveal_with_fuel(run, 2);
    assert(decode_from(seq![b], 1) == Seq::<char>::empty());
    assert(decode_seq(seq![b]) =~= seq![b as char]);
}

/// The UTF-8 encoding of a scalar value that needs two bytes or more decodes
/// to that value once, and decoding resumes right after the encoding.
pub proof fn lemma_multi_byte_decodes_once(p: u32, rest: Seq<u8>)
    requires
        is_scalar(p),
        p >= 0x80,
    ensures
        decode_seq(encode_scalar(p) + rest) == seq![p as char] + decode_from(
            encode_scalar(p) + rest,
            encode_scalar(p).len() as int,
        ),
{
    let bytes = encode_scalar(p) + rest;
    lemma_encoded_scalar_decodes_first(p, rest);
    assert(decode_seq(bytes) =~= seq![p as char] + decode_from(bytes, encode_scalar(p).len() as int));
}

/// A call of `Utf8Decoder::next` on a source whose bytes ahead start with the
/// UTF-8 encoding of a scalar value `p` returns `p` and leaves exactly the bytes
/// after the encoding, whether or not the source fails once dry.
pub proof fn lemma_next_decodes_encoded_scalar<E>(
    p: u32,
    tail: Seq<u8>,
    fails_when_dry: bool,
    after: Seq<u8>,
    r: Option<Result<char, E>>,
)
    requires
        is_scalar(p),
        next_outcome(encode_scalar(p) + tail, fails_when_dry, after, r),
    ensures
        r matches Some(Ok(c)) && c == p as char,
        after == tail,
{
    let bytes = encode_scalar(p) + tail;
    lemma_encoded_scalar_decodes_first(p, tail);
    assert(bytes.subrange(encode_scalar(p).len() as int, bytes.len() as int) =~= tail);
}

/// A call of `Utf8Decoder::next` on a source with no byte ahead that fails
/// once dry passes on the failure, with no character before it; one that does
/// not fail tells of the end of the stream.
pub proof fn lemma_next_on_dry_source<E>(
    fails_when_dry: bool,
    after: Seq<u8>,
    r: Option<Result<char, E>>,
)
    requires
        next_outcome(Seq::empty(), fails_when_dry, after, r),
    ensures
        fails_when_dry ==> r matches Some(Err(_)),
        !fails_when_dry ==> r is None,
        after == Seq::<u8>::empty(),
{
    assert(Seq::<u8>::empty().subrange(0, 0) =~= Seq::<u8>::empty());
}

/// Decoding the UTF-8 encoding of any scalar value gives back exactly that value.
pub proof fn lemma_round_trip(p: u32)
    requires
        is_scalar(p),
    ensures
        decode_seq(encode_scalar(p)) == seq![p as char],
{
    let e = encode_scalar(p);
    lemma_encoded_scalar_decodes_first(p, Seq::empty());
    assert(e + Seq::<u8>::empty() =~= e);
    assert(decode_from(e, e.len() as int) == Seq::<char>::empty());
    assert(decode_seq(e) =~= seq![p as char]);
}

/// A byte that cannot lead a sequence (`0xC0`, `0xC1`, a continuation byte, or
/// `0xF8` and above) yields one replacement character and takes only itself.
pub proof fn lemma_invalid_leader_first(b: u8, tail: Seq<u8>)
    requires
        b == 0xC0 || b == 0xC1 || (0x80 <= b <= 0xBF) || b >= 0xF8,
    ensures
        decode_first(seq![b] + tail) == (Some(REPLACEMENT_CHARACTER), 1int),
{
    assert((seq![b] + tail)[0] == b);
}

/// A two-byte leading byte followed by a byte that is no continuation byte
/// yields one replacement character and takes both bytes; followed by nothing,
/// it yields one replacement character, not the end of the stream.
pub proof fn lemma_bad_continuation_first(b: u8, x: u8, tail: Seq<u8>)
    requires
        0xC2 <= b <= 0xDF,
        !is_continuation(x),
    ensures
        decode_first(seq![b, x] + tail) == (Some(REPLACEMENT_CHARACTER), 2int),
        decode_first(seq![b]) == (Some(REPLACEMENT_CHARACTER), 1int),
{
    let bytes = seq![b, x] + tail;
    assert(bytes[0] == b && bytes[1] == x);
    reveal_with_fuel(run, 3);
}

/// Where a leading byte is expected, `0xC0` or `0xC1` yields one replacement
/// character and decoding resumes at the very next byte.
pub proof fn lemma_overlong_leader(bytes: Seq<u8>, pos: int)
    requires
        0 <= pos < bytes.len(),
        bytes[pos] == 0xC0 || bytes[pos] == 0xC1,
    ensures
        decode_from(bytes, pos) == seq![REPLACEMENT_CHARACTER] + decode_from(bytes, pos + 1),
{
    assert(decode_from(bytes, pos) =~= seq![REPLACEMENT_CHARACTER] + decode_from(bytes, pos + 1));
}

/// The three-byte form of `v` decodes from its first byte on, whatever
/// follows, to what `v` stands for, in three bytes.
proof fn lemma_three_byte_form(v: u32, tail: Seq<u8>)
    requires
        0x800 <= v <= 0xFFFF,
    ensures
        decode_first(
            seq![
                0xE0 | ((v >> 12u32) & 0x0F) as u8,
                0x80 | ((v >> 6u32) & 0x3F) as u8,
                0x80 | (v & 0x3F) as u8,
            ] + tail,
        ) == (Some(scalar_or_replacement(v)), 3int),
        !runs_dry(
            DecodeState::Start,
            seq![
                0xE0 | ((v >> 12u32) & 0x0F) as u8,
                0x80 | ((v >> 6u32) & 0x3F) as u8,
                0x80 | (v & 0x3F) as u8,
            ] + tail,
            0,
        ),
{
    let bytes = seq![
        0xE0 | ((v >> 12u32) & 0x0F) as u8,
        0x80 | ((v >> 6u32) & 0x3F) as u8,
        0x80 | (v & 0x3F) as u8,
    ] + tail;
    lemma_width_3_bits(v);
    reveal_with_fuel(run, 4);
    reveal_with_fuel(runs_dry, 4);
    let acc = ((bytes[0] - 0xE0) * 4096) as u32;
    assert(feed_spec(DecodeState::Start, bytes[0]) == Step::More(
        DecodeState::Pending { remaining: 2, acc },
    ));
    let acc2 = (acc + (bytes[1] - 0x80) * 64) as u32;
    assert(feed_spec(DecodeState::Pending { remaining: 2, acc }, bytes[1]) == Step::More(
        DecodeState::Pending { remaining: 1, acc: acc2 },
    ));
    assert(((acc2 + (bytes[2] - 0x80) * weight(1)) as u32) == v);
    assert(feed_spec(DecodeState::Pending { remaining: 1, acc: acc2 }, bytes[2]) == Step::Done(
        scalar_or_replacement(v),
    ));
    assert(run(DecodeState::Pending { remaining: 2, acc }, bytes, 1) == (
        Some(scalar_or_replacement(v)),
        3int,
    ));
    assert(!runs_dry(DecodeState::Pending { remaining: 2, acc }, bytes, 1));
}

/// The three-byte form of a code point in the surrogate range `0xD800..=0xDFFF`
/// decodes to the replacement character, never to the surrogate, and takes its
/// three bytes whatever follows; on its own, nothing follows it.
pub proof fn lemma_surrogate_rejected(v: u32, tail: Seq<u8>)
    requires
        0xD800 <= v <= 0xDFFF,
    ensures
        decode_first(
            seq![
                0xE0 | ((v >> 12u32) & 0x0F) as u8,
                0x80 | ((v >> 6u32) & 0x3F) as u8,
                0x80 | (v & 0x3F) as u8,
            ] + tail,
        ) == (Some(REPLACEMENT_CHARACTER), 3int),
        decode_seq(
            seq![
                0xE0 | ((v >> 12u32) & 0x0F) as u8,
                0x80 | ((v >> 6u32) & 0x3F) as u8,
                0x80 | (v & 0x3F) as u8,
            ],
        ) == seq![REPLACEMENT_CHARACTER],
{
    let bytes = seq![
        0xE0 | ((v >> 12u32) & 0x0F) as u8,
        0x80 | ((v >> 6u32) & 0x3F) as u8,
        0x80 | (v & 0x3F) as u8,
    ];
    assert(!is_scalar(v));
    lemma_three_byte_form(v, tail);
    lemma_three_byte_form(v, Seq::empty());
    assert(bytes + Seq::<u8>::empty() =~= bytes);
    assert(decode_from(bytes, 3) == Seq::<char>::empty());
    assert(decode_seq(bytes) =~= seq![REPLACEMENT_CHARACTER]);
}

/// A two-byte leading byte followed by a byte that is no continuation byte
/// yields one replacement character; the rejected byte is dropped and decoding
/// resumes after it.
pub proof fn lemma_bad_continuation_dropped(bytes: Seq<u8>, pos: int)
    requires
        0 <= pos,
        pos + 1 < bytes.len(),
        0xC2 <= bytes[pos] <= 0xDF,
        !is_continuation(bytes[pos + 1]),
    ensures
        decode_from(bytes, pos) == seq![REPLACEMENT_CHARACTER] + decode_from(bytes, pos + 2),
{
    reveal_with_fuel(run, 3);
    assert(decode_from(bytes, pos) =~= seq![REPLACEMENT_CHARACTER] + decode_from(bytes, pos + 2));
}

} // verus!

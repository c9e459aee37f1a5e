//! The byte-at-a-time decoding state machine and its mathematical model.
//!
//! Two choices go beyond what UTF-8 itself fixes. A byte rejected as a
//! continuation byte is dropped, not read again as a leading byte. Overlong
//! forms are refused only for the leading bytes `0xC0` and `0xC1`; longer
//! overlong forms decode to the value they assemble, while an assembled value
//! that is no scalar value (a surrogate, or beyond `U+10FFFF`) yields the
//! replacement character.
use vstd::prelude::*;
use vstd::utf8::is_scalar;

verus! {

/// Substituted for every malformed byte sequence, as the Unicode Standard recommends.
pub const REPLACEMENT_CHARACTER: char = '\u{FFFD}';

/// Relies on `char::from_u32`: `Some` exactly for Unicode scalar values.
pub assume_specification[ char::from_u32 ](i: u32) -> (r: Option<char>)
    ensures
        is_scalar(i) ==> r == Some(i as char),
        !is_scalar(i) ==> r is None,
;

/// What is known of the character being decoded between two bytes.
#[derive(Clone, Copy, Debug, PartialEq, Eq, Structural)]
pub enum DecodeState {
    /// No byte of the current character has been read yet.
    Start,
    /// A leading byte was read; `remaining` continuation bytes are still owed
    /// and `acc` holds the bits gathered so far, already in place.
    Pending { remaining: u8, acc: u32 },
}

/// The outcome of feeding one byte to the state machine.
#[derive(Clone, Copy, Debug, PartialEq, Eq, Structural)]
pub enum Step {
    /// A character is complete (the replacement character on malformed input).
    Done(char),
    /// More bytes are needed.
    More(DecodeState),
}

/// The value of one unit in the low bits of the continuation byte that is read
/// while `n` bytes, itself included, are still owed: `64` to the power `n - 1`.
pub open spec fn weight(n: nat) -> nat {
    if n <= 1 {
        1
    } else if n == 2 {
        64
    } else {
        4096
    }
}

impl DecodeState {
    /// A pending state owes one to three bytes, and its accumulator has
    /// zeros in every bit that those bytes still have to fill.
    pub open spec fn wf(self) -> bool {
        match self {
            DecodeState::Start => true,
            DecodeState::Pending { remaining, acc } => {
                &&& 1 <= remaining <= 3
                &&& acc < 0x20_0000
                &&& acc as nat % (64 * weight(remaining as nat)) == 0
            },
        }
    }

    /// Bytes that may still be read before a character is complete.
    pub open spec fn budget(self) -> nat {
        match self {
            DecodeState::Start => 4,
            DecodeState::Pending { remaining, .. } => remaining as nat,
        }
    }
}

/// `v` as a character, or the replacement character where `v` is no scalar value.
pub open spec fn scalar_or_replacement(v: u32) -> char {
    if is_scalar(v) { v as char } else { REPLACEMENT_CHARACTER }
}

/// A continuation byte has the form `10xxxxxx`.
pub open spec fn is_continuation(b: u8) -> bool {
    0x80 <= b <= 0xBF
}

/// The state reached after a leading byte that opens a sequence of 2, 3 or 4 bytes.
pub open spec fn leading_step(b: u8) -> Step {
    if b < 0x80 {
        Step::Done(b as char)
    } else if b <= 0xC1 {
        Step::Done(REPLACEMENT_CHARACTER)
    } else if b <= 0xDF {
        Step::More(DecodeState::Pending { remaining: 1, acc: ((b - 0xC0) * 64) as u32 })
    } else if b <= 0xEF {
        Step::More(DecodeState::Pending { remaining: 2, acc: ((b - 0xE0) * 4096) as u32 })
    } else if b <= 0xF7 {
        Step::More(DecodeState::Pending { remaining: 3, acc: ((b - 0xF0) * 262144) as u32 })
    } else {
        Step::Done(REPLACEMENT_CHARACTER)
    }
}

/// What one byte does to the state machine.
pub open spec fn feed_spec(s: DecodeState, b: u8) -> Step {
    match s {
        DecodeState::Start => leading_step(b),
        DecodeState::Pending { remaining, acc } => {
            if !is_continuation(b) {
                Step::Done(REPLACEMENT_CHARACTER)
            } else {
                let next = (acc + (b - 0x80) * weight(remaining as nat)) as u32;
                if remaining == 1 {
                    Step::Done(scalar_or_replacement(next))
                } else {
                    Step::More(DecodeState::Pending { remaining: (remaining - 1) as u8, acc: next })
                }
            }
        },
    }
}

proof fn lemma_leading_bits(b: u8)
    by (bit_vector)
    ensures
        (b & 0x80 == 0) == (b < 0x80),
        (b & 0xE0 == 0xC0) == (0xC0 <= b && b <= 0xDF),
        (b & 0xF0 == 0xE0) == (0xE0 <= b && b <= 0xEF),
        (b & 0xF8 == 0xF0) == (0xF0 <= b && b <= 0xF7),
        0xC0 <= b && b <= 0xDF ==> ((b & 0x1F) as u32) << 6u32 == ((b - 0xC0) * 64) as u32,
        0xE0 <= b && b <= 0xEF ==> ((b & 0x0F) as u32) << 12u32 == ((b - 0xE0) * 4096) as u32,
        0xF0 <= b && b <= 0xF7 ==> ((b & 0x07) as u32) << 18u32 == ((b - 0xF0) * 262144) as u32,
        (((b & 0x1F) as u32) << 6u32) % 64 == 0 && ((b & 0x1F) as u32) << 6u32 < 0x20_0000,
        (((b & 0x0F) as u32) << 12u32) % 4096 == 0 && ((b & 0x0F) as u32) << 12u32 < 0x20_0000,
        (((b & 0x07) as u32) << 18u32) % 262144 == 0 && ((b & 0x07) as u32) << 18u32 < 0x20_0000,
{
}

proof fn lemma_continuation_bits(b: u8, acc: u32)
    by (bit_vector)
    ensures
        (b & 0xC0 == 0x80) == (0x80 <= b && b <= 0xBF),
        0x80 <= b && b <= 0xBF ==> (b & 0x3F) == b - 0x80,
        acc % 64 == 0 && b < 64 ==> acc | ((b as u32) << 0u32) == acc + b,
        acc % 4096 == 0 && b < 64 ==> acc | ((b as u32) << 6u32) == acc + b * 64,
        acc % 262144 == 0 && b < 64 ==> acc | ((b as u32) << 12u32) == acc + b * 4096,
        acc % 4096 == 0 && acc < 0x20_0000 && b < 64 ==> (acc | ((b as u32) << 6u32)) % 64 == 0
            && (acc | ((b as u32) << 6u32)) < 0x20_0000,
        acc % 262144 == 0 && acc < 0x20_0000 && b < 64 ==> (acc | ((b as u32) << 12u32)) % 4096
            == 0 && (acc | ((b as u32) << 12u32)) < 0x20_0000,
{
}

/// Feeds one byte to the state machine.
pub fn feed(state: DecodeState, b: u8) -> (r: Step)
    requires
        state.wf(),
    ensures
        r == feed_spec(state, b),
        r is More ==> r->More_0.wf() && r->More_0.budget() < state.budget(),
{
    proof {
        lemma_leading_bits(b);
    }
    match state {
        DecodeState::Start => {
            if b & 0x80 == 0 {
                Step::Done(b as char)
            } else if b & 0b1110_0000 == 0b1100_0000 {
                if b == 0xC0 || b == 0xC1 {
                    // overlong encodings of a single-byte character
                    Step::Done(REPLACEMENT_CHARACTER)
                } else {
                    Step::More(DecodeState::Pending { remaining: 1, acc: ((b & 0b1_1111) as u32) << 6 })
                }
            } else if b & 0b1111_0000 == 0b1110_0000 {
                Step::More(DecodeState::Pending { remaining: 2, acc: ((b & 0b1111) as u32) << 12 })
            } else if b & 0b1111_1000 == 0b1111_0000 {
                Step::More(DecodeState::Pending { remaining: 3, acc: ((b & 0b111) as u32) << 18 })
            } else {
                Step::Done(REPLACEMENT_CHARACTER)
            }
        },
        DecodeState::Pending { remaining, acc } => {
            proof {
                lemma_continuation_bits(b, acc);
            }
            if b & 0b1100_0000 == 0b1000_0000 {
                let bits = b & 0b11_1111;
                proof {
                    lemma_continuation_bits(bits, acc);
                }
                let shift: u32 = 6 * (remaining as u32 - 1);
                let next = acc | ((bits as u32) << shift);
                if remaining == 1 {
                    match char::from_u32(next) {
                        Some(c) => Step::Done(c),
                        // a surrogate, or beyond the last code point
                        None => Step::Done(REPLACEMENT_CHARACTER),
                    }
                } else {
                    Step::More(DecodeState::Pending { remaining: remaining - 1, acc: next })
                }
            } else {
                Step::Done(REPLACEMENT_CHARACTER)
            }
        },
    }
}

/// What exhaustion of the source means in a given state: the end of the
/// stream before any byte of a character, a truncated sequence after one.
pub open spec fn finish_spec(s: DecodeState) -> Option<char> {
    match s {
        DecodeState::Start => None,
        DecodeState::Pending { .. } => Some(REPLACEMENT_CHARACTER),
    }
}

/// Tells what the source running dry in `state` yields.
pub fn finish(state: DecodeState) -> (r: Option<char>)
    ensures
        r == finish_spec(state),
{
    match state {
        DecodeState::Start => None,
        DecodeState::Pending { .. } => Some(REPLACEMENT_CHARACTER),
    }
}

/// Decodes one character from `bytes`, starting at `pos` in state `s`: the
/// character (`None` at the end of the stream) and the position after the
/// last byte consumed.
pub open spec fn run(s: DecodeState, bytes: Seq<u8>, pos: int) -> (Option<char>, int)
    decreases bytes.len() - pos,
{
    if pos < 0 || pos >= bytes.len() {
        (finish_spec(s), pos)
    } else {
        match feed_spec(s, bytes[pos]) {
            Step::Done(c) => (Some(c), pos + 1),
            Step::More(next) => run(next, bytes, pos + 1),
        }
    }
}

/// Whether decoding from `pos` in state `s` reaches the end of `bytes` before
/// a character is complete, and so asks for one byte more than there are.
pub open spec fn runs_dry(s: DecodeState, bytes: Seq<u8>, pos: int) -> bool
    decreases bytes.len() - pos,
{
    if pos < 0 || pos >= bytes.len() {
        true
    } else {
        match feed_spec(s, bytes[pos]) {
            Step::Done(_) => false,
            Step::More(next) => runs_dry(next, bytes, pos + 1),
        }
    }
}

/// The first character decoded from `bytes`, and how many bytes it takes.
pub open spec fn decode_first(bytes: Seq<u8>) -> (Option<char>, int) {
    run(DecodeState::Start, bytes, 0)
}

/// Every character decoded from `bytes` from position `pos` on, in order.
pub open spec fn decode_from(bytes: Seq<u8>, pos: int) -> Seq<char>
    decreases bytes.len() - pos,
{
    let (c, n) = run(DecodeState::Start, bytes, pos);
    if c is Some && pos < n <= bytes.len() {
        seq![c->Some_0] + decode_from(bytes, n)
    } else {
        seq![]
    }
}

/// Every character decoded from `bytes`, in order.
pub open spec fn decode_seq(bytes: Seq<u8>) -> Seq<char> {
    decode_from(bytes, 0)
}

} // verus!

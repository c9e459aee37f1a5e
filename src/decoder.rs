//! The pull-based decoder over a byte source.
use vstd::prelude::*;
use crate::source::ByteSource;
use crate::utf8_step::{
    decode_first, decode_from, decode_seq, feed, finish, run, runs_dry, DecodeState, Step,
};

verus! {

/// Decodes UTF-8 from a byte source one character at a time.
pub struct Utf8Decoder<S: ByteSource> {
    source: S,
}

impl<S: ByteSource> Utf8Decoder<S> {
    /// The byte source that the decoder reads from.
    pub closed spec fn source(&self) -> S {
        self.source
    }

    /// A decoder that reads `input` from its current position.
    pub fn new(input: S) -> (r: Self)
        ensures
            r.source() == input,
    {
        Self { source: input }
    }

    /// The next character, `None` at the end of the stream, or the failure of
    /// the source. Every malformed sequence yields the replacement character;
    /// each call starts afresh on the byte after those that the last one read.
    pub fn next(&mut self) -> (r: Option<Result<char, S::Error>>)
        ensures
            old(self).source().is_modelled() ==> {
                &&& final(self).source().is_modelled()
                &&& final(self).source().fails_when_dry() == old(self).source().fails_when_dry()
                &&& next_outcome(
                    old(self).source().ahead(),
                    old(self).source().fails_when_dry(),
                    final(self).source().ahead(),
                    r,
                )
            },
            old(self).source().is_modelled() && !old(self).source().fails_when_dry() ==> !(
            r matches Some(Err(_))),
    {
        let ghost modelled = self.source.is_modelled();
        let ghost a = self.source.ahead();
        let ghost mut i: int = 0;
        let mut state = DecodeState::Start;
        proof {
            assert(a.subrange(0, a.len() as int) =~= a);
        }
        loop
            invariant
                state.wf(),
                state is Start ==> i == 0,
                modelled ==> {
                    &&& self.source.is_modelled()
                    &&& 0 <= i <= a.len()
                    &&& self.source.ahead() == a.subrange(i, a.len() as int)
                    &&& run(state, a, i) == decode_first(a)
                    &&& runs_dry(state, a, i) == runs_dry(DecodeState::Start, a, 0)
                    &&& self.source.fails_when_dry() == old(self).source().fails_when_dry()
                },
                modelled == old(self).source().is_modelled(),
                a == old(self).source().ahead(),
            decreases state.budget(),
        {
            let read = self.source.next_byte();
            match read {
                None => {
                    return match finish(state) {
                        Some(c) => Some(Ok(c)),
                        None => None,
                    };
                },
                Some(Err(e)) => {
                    return Some(Err(e));
                },
                Some(Ok(b)) => {
                    proof {
                        if modelled {
                            assert(b == a[i]);
                            assert(self.source.ahead() =~= a.subrange(i + 1, a.len() as int));
                        }
                    }
                    match feed(state, b) {
                        Step::Done(c) => {
                            return Some(Ok(c));
                        },
                        Step::More(s) => {
                            state = s;
                            proof {
                                i = i + 1;
                            }
                        },
                    }
                },
            }
        }
    }
}

/// What one call of `Utf8Decoder::next` does, for a source whose bytes ahead
/// were `before` and are `after` once it returned `r`, and which fails once
/// dry where `fails_when_dry` holds. Where the bytes run out before a character
/// is complete and such a source then fails, the failure is returned and every
/// byte is taken. Otherwise the result is the first character that `before`
/// decodes to, past exactly its bytes, or the end of the stream with no byte
/// taken.
pub open spec fn next_outcome<E>(
    before: Seq<u8>,
    fails_when_dry: bool,
    after: Seq<u8>,
    r: Option<Result<char, E>>,
) -> bool {
    let (c, n) = decode_first(before);
    &&& after == before.subrange(n, before.len() as int)
    &&& if fails_when_dry && runs_dry(DecodeState::Start, before, 0) {
        r matches Some(Err(_))
    } else {
        match c {
            Some(ch) => r matches Some(Ok(x)) && x == ch,
            None => r is None,
        }
    }
}

/// Decodes the character that starts at `pos`: the character, `None` at the
/// end, and the position after the bytes it took.
fn decode_one(bytes: &[u8], pos: usize) -> (r: (Option<char>, usize))
    requires
        pos <= bytes@.len(),
    ensures
        (r.0, r.1 as int) == run(DecodeState::Start, bytes@, pos as int),
        r.0 is Some ==> pos < r.1 <= bytes@.len(),
{
    let mut state = DecodeState::Start;
    let mut i: usize = pos;
    while i < bytes.len()
        invariant
            state.wf(),
            pos <= i <= bytes@.len(),
            run(state, bytes@, i as int) == run(DecodeState::Start, bytes@, pos as int),
            state is Pending ==> pos < i,
        decreases state.budget(),
    {
        match feed(state, bytes[i]) {
            Step::Done(c) => {
                return (Some(c), i + 1);
            },
            Step::More(s) => {
                state = s;
                i = i + 1;
            },
        }
    }
    (finish(state), i)
}

/// Decodes every character of `bytes`, in order.
pub fn decode_all(bytes: &[u8]) -> (r: Vec<char>)
    ensures
        r@ == decode_seq(bytes@),
{
    let mut out: Vec<char> = Vec::new();
    let mut pos: usize = 0;
    loop
        invariant
            pos <= bytes@.len(),
            out@ + decode_from(bytes@, pos as int) == decode_seq(bytes@),
        decreases bytes@.len() - pos,
    {
        let (c, n) = decode_one(bytes, pos);
        match c {
            Some(c) => {
                proof {
                    assert(out@.push(c) + decode_from(bytes@, n as int) =~= out@ + decode_from(
                        bytes@,
                        pos as int,
                    ));
                }
                out.push(c);
                pos = n;
            },
            None => {
                assert(out@ =~= out@ + decode_from(bytes@, pos as int));
                return out;
            },
        }
    }
}

} // verus!

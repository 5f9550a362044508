//! What an opcode stream means: the image it reconstructs from a base image.

use vstd::prelude::*;

use crate::decoder::{DecoderAction, DecoderState};
use crate::error::DecodeError;

verus! {

/// `head` put in front of a decoded image.
pub open spec fn prepend(head: Seq<u8>, r: Result<Seq<u8>, DecodeError>) -> Result<
    Seq<u8>,
    DecodeError,
> {
    match r {
        Ok(tail) => Ok(head + tail),
        Err(e) => Err(e),
    }
}

/// The bytes that the opcode stream `stream` still produces from `base`, decoded from state
/// `d` on; or the error that the decoder stops with.
///
/// A stream that breaks off in the middle of ADD data is too short.
#[verifier::opaque]
pub open spec fn decode(d: DecoderState, stream: Seq<u8>, base: Seq<u8>) -> Result<
    Seq<u8>,
    DecodeError,
>
    decreases stream.len(),
{
    match d.next(stream).1 {
        Err(e) => Err(e),
        Ok((DecoderAction::Done, _)) => Ok(Seq::empty()),
        Ok((DecoderAction::Copy { src_offset, len }, _)) => prepend(
            base.subrange(src_offset as int, src_offset + len),
            decode(d.next(stream).0, stream.skip(9), base),
        ),
        Ok((DecoderAction::Add { len }, _)) => if stream.len() < 5 + len {
            Err(DecodeError::BufferTooShort)
        } else {
            prepend(
                stream.subrange(5, 5 + len),
                decode(d.next(stream).0.advance(len).0, stream.skip(5 + len), base),
            )
        },
    }
}

/// The image that a whole patch reconstructs from `base`, given the declared target size.
pub open spec fn apply(patch: Seq<u8>, base: Seq<u8>, target_size: u32) -> Result<
    Seq<u8>,
    DecodeError,
> {
    decode(
        DecoderState::fresh(patch.len() as u32, base.len() as u32, target_size),
        patch,
        base,
    )
}

/// One opcode of a decoded patch, with the place it writes to.
#[derive(Debug, Clone, Copy, PartialEq, Eq, Structural)]
pub enum DecodedOp {
    /// `base[src_offset..src_offset + len]` goes to `out[write_pos..write_pos + len]`.
    Copy { src_offset: u32, len: u32, write_pos: u32 },
    /// `patch[data_start..data_start + len]` goes to `out[write_pos..write_pos + len]`.
    Add { data_start: usize, len: u32, write_pos: u32 },
    /// The stream is complete.
    End,
}

/// The opcodes decoded from state `d` on, up to END or the first error; `stream` starts at
/// offset `pos` of the patch.
#[verifier::opaque]
pub open spec fn trace(d: DecoderState, stream: Seq<u8>, pos: nat) -> Seq<DecodedOp>
    decreases stream.len(),
{
    let write_pos = d.write_pos as u32;
    match d.next(stream).1 {
        Err(_) => Seq::empty(),
        Ok((DecoderAction::Done, _)) => seq![DecodedOp::End],
        Ok((DecoderAction::Copy { src_offset, len }, _)) => seq![
            DecodedOp::Copy { src_offset, len, write_pos },
        ] + trace(d.next(stream).0, stream.skip(9), pos + 9),
        Ok((DecoderAction::Add { len }, _)) => if stream.len() < 5 + len {
            Seq::empty()
        } else {
            seq![DecodedOp::Add { data_start: (pos + 5) as usize, len, write_pos }] + trace(
                d.next(stream).0.advance(len).0,
                stream.skip(5 + len),
                pos + 5 + len as nat,
            )
        },
    }
}

/// The number of patch bytes that a run of opcodes takes up.
pub open spec fn wire_len(ops: Seq<DecodedOp>) -> nat
    decreases ops.len(),
{
    if ops.len() == 0 {
        0
    } else {
        wire_len(ops.drop_last()) + match ops.last() {
            DecodedOp::Copy { .. } => 9,
            DecodedOp::Add { len, .. } => 5 + len as nat,
            DecodedOp::End => 1,
        }
    }
}

/// One step of decoding: what the first opcode of a stream contributes.
pub proof fn lemma_step(d: DecoderState, stream: Seq<u8>, base: Seq<u8>, pos: nat)
    ensures
        match d.next(stream).1 {
            Err(e) => {
                &&& decode(d, stream, base) == Err::<Seq<u8>, DecodeError>(e)
                &&& trace(d, stream, pos) == Seq::<DecodedOp>::empty()
            },
            Ok((DecoderAction::Done, _)) => {
                &&& decode(d, stream, base) == Ok::<Seq<u8>, DecodeError>(Seq::empty())
                &&& trace(d, stream, pos) == seq![DecodedOp::End]
            },
            Ok((DecoderAction::Copy { src_offset, len }, _)) => {
                &&& decode(d, stream, base) == prepend(
                    base.subrange(src_offset as int, src_offset + len),
                    decode(d.next(stream).0, stream.skip(9), base),
                )
                &&& trace(d, stream, pos) == seq![
                    DecodedOp::Copy { src_offset, len, write_pos: d.write_pos as u32 },
                ] + trace(d.next(stream).0, stream.skip(9), pos + 9)
            },
            Ok((DecoderAction::Add { len }, _)) => if stream.len() < 5 + len {
                decode(d, stream, base) == Err::<Seq<u8>, DecodeError>(DecodeError::BufferTooShort)
            } else {
                let after = d.next(stream).0.advance(len).0;
                &&& decode(d, stream, base) == prepend(
                    stream.subrange(5, 5 + len),
                    decode(after, stream.skip(5 + len), base),
                )
                &&& trace(d, stream, pos) == seq![
                    DecodedOp::Add {
                        data_start: (pos + 5) as usize,
                        len,
                        write_pos: d.write_pos as u32,
                    },
                ] + trace(after, stream.skip(5 + len), pos + 5 + len as nat)
            },
        },
{
    reveal(decode);
    reveal(trace);
}

/// A decoded image never exceeds the declared target size.
pub proof fn lemma_output_fits(d: DecoderState, stream: Seq<u8>, base: Seq<u8>)
    requires
        d.wf(),
        d.base_size <= base.len(),
    ensures
        decode(d, stream, base) matches Ok(image) ==> d.write_pos + image.len() <= d.target_size,
    decreases stream.len(),
{
    lemma_step(d, stream, base, 0);
    match d.next(stream).1 {
        Ok((DecoderAction::Copy { src_offset, len }, _)) => {
            lemma_output_fits(d.next(stream).0, stream.skip(9), base);
        },
        Ok((DecoderAction::Add { len }, _)) => {
            if stream.len() >= 5 + len {
                lemma_output_fits(d.next(stream).0.advance(len).0, stream.skip(5 + len), base);
            }
        },
        _ => {},
    }
}

/// Keeping the low 32 bits of a number never increases it.
pub proof fn lemma_low_word(n: nat)
    requires
        n <= usize::MAX,
    ensures
        n as u32 <= n,
        n <= u32::MAX ==> n as u32 == n,
{
    let m = n as u64;
    assert((m as u32) <= m) by (bit_vector);
}

/// Putting nothing in front changes nothing.
pub proof fn lemma_prepend_nothing(r: Result<Seq<u8>, DecodeError>)
    ensures
        prepend(Seq::empty(), r) == r,
{
    if let Ok(s) = r {
        assert(Seq::<u8>::empty() + s =~= s);
    }
}

/// Putting `b` and then `a` in front is putting `a + b` in front.
pub proof fn lemma_prepend_twice(a: Seq<u8>, b: Seq<u8>, r: Result<Seq<u8>, DecodeError>)
    ensures
        prepend(a, prepend(b, r)) == prepend(a + b, r),
{
    if let Ok(s) = r {
        assert(a + (b + s) =~= (a + b) + s);
    }
}

} // verus!

//! Streaming opcode decoder for the COPY/ADD/END opcode set.
//!
//! The decoder is a pull-based state machine.  The caller feeds small buffers of opcode
//! bytes and receives back an action describing what to do next (copy from base, add literal
//! data, or stop).  The decoder itself performs no I/O and allocates no memory.

use vstd::prelude::*;

use crate::error::DecodeError;
use crate::format::{MAX_OPCODE_HEADER, OP_ADD, OP_COPY, OP_END};
use crate::le;
use crate::patch;
use crate::patch::DecodedOp;
use crate::report;

verus! {

// ---------------------------------------------------------------------------
//  Opcodes on the wire
// ---------------------------------------------------------------------------

/// One opcode header as it stands on the wire.
pub enum Opcode {
    Copy { src_offset: u32, len: u32 },
    Add { len: u32 },
    End,
}

/// The opcode header at the start of `buf`, or why there is none.
pub open spec fn parse_opcode(buf: Seq<u8>) -> Result<Opcode, DecodeError> {
    if buf.len() == 0 {
        Err(DecodeError::BufferTooShort)
    } else if buf[0] == OP_COPY {
        if buf.len() < 9 {
            Err(DecodeError::BufferTooShort)
        } else {
            Ok(
                Opcode::Copy {
                    src_offset: le::u32_at(buf, 1),
                    len: le::u32_at(buf, 5),
                },
            )
        }
    } else if buf[0] == OP_ADD {
        if buf.len() < 5 {
            Err(DecodeError::BufferTooShort)
        } else {
            Ok(Opcode::Add { len: le::u32_at(buf, 1) })
        }
    } else if buf[0] == OP_END {
        Ok(Opcode::End)
    } else {
        Err(DecodeError::UnknownOpcode(buf[0]))
    }
}

// ---------------------------------------------------------------------------
//  The decoder as a state machine over mathematical states
// ---------------------------------------------------------------------------

/// An action that the caller must perform after decoding one opcode.
#[derive(Debug, Clone, Copy, PartialEq, Eq, Structural)]
pub enum DecoderAction {
    /// Copy `len` bytes from the base image starting at byte offset `src_offset` into the
    /// reconstructed image at the current write position.
    Copy { src_offset: u32, len: u32 },
    /// The next `len` bytes in the patch stream are literal data (the ADD payload).  The
    /// caller must read exactly `len` bytes from the patch source and write them to the
    /// reconstructed image.
    ///
    /// These `len` bytes are *not* consumed by the decoder.  The caller reads them
    /// externally, reports them with `advance_add`, then resumes calling `next_action`.
    Add { len: u32 },
    /// The opcode stream is complete.
    Done,
}

/// The mathematical state of a [`Decoder`].
pub struct DecoderState {
    /// Declared size of the opcode stream.
    pub total_size: nat,
    /// Bytes of the stream consumed so far (opcode headers and ADD data).
    pub consumed: nat,
    /// Size of the base image.
    pub base_size: nat,
    /// Size of the reconstructed image.
    pub target_size: nat,
    /// Bytes of the reconstructed image accounted for so far.
    pub write_pos: nat,
    /// Whether END has been seen.
    pub done: bool,
    /// The length of an ADD whose literal data is still to be consumed.
    pub pending_add: Option<u32>,
}

impl DecoderState {
    /// The state of a fresh decoder.
    pub open spec fn fresh(total_size: u32, base_size: u32, target_size: u32) -> Self {
        DecoderState {
            total_size: total_size as nat,
            consumed: 0,
            base_size: base_size as nat,
            target_size: target_size as nat,
            write_pos: 0,
            done: false,
            pending_add: None,
        }
    }

    /// What every reachable state satisfies: neither counter ever passes its declared size,
    /// the data of a pending ADD is within the declared stream, and END is only accepted
    /// when the declared stream has been consumed exactly.
    pub open spec fn wf(self) -> bool {
        &&& self.total_size <= u32::MAX
        &&& self.base_size <= u32::MAX
        &&& self.target_size <= u32::MAX
        &&& self.consumed <= self.total_size
        &&& self.write_pos <= self.target_size
        &&& self.done ==> self.consumed == self.total_size && self.pending_add is None
        &&& self.pending_add matches Some(n) ==> self.consumed + n <= self.total_size
    }

    /// Decoding one opcode from `buf`: the state that follows, and the action with the
    /// number of bytes of `buf` that the opcode header takes up.
    pub open spec fn next(self, buf: Seq<u8>) -> (Self, Result<
        (DecoderAction, nat),
        DecodeError,
    >) {
        if self.done {
            (self, Ok((DecoderAction::Done, 0)))
        } else if self.pending_add is Some {
            (self, Err(DecodeError::PendingAddData))
        } else if self.consumed >= self.total_size {
            (self, Err(DecodeError::MissingEnd))
        } else {
            match parse_opcode(buf) {
                Err(e) => (self, Err(e)),
                Ok(Opcode::Copy { src_offset, len }) => {
                    if src_offset + len > self.base_size {
                        (self, Err(DecodeError::CopyOutOfBounds))
                    } else if self.write_pos + len > self.target_size {
                        (self, Err(DecodeError::OutputOverflow))
                    } else if self.consumed + 9 > self.total_size {
                        (self, Err(DecodeError::OverlongStream))
                    } else {
                        (
                            DecoderState {
                                consumed: self.consumed + 9,
                                write_pos: self.write_pos + len as nat,
                                ..self
                            },
                            Ok((DecoderAction::Copy { src_offset, len }, 9)),
                        )
                    }
                },
                Ok(Opcode::Add { len }) => {
                    if self.write_pos + len > self.target_size {
                        (self, Err(DecodeError::OutputOverflow))
                    } else if self.consumed + 5 + len > self.total_size {
                        (self, Err(DecodeError::OverlongStream))
                    } else {
                        (
                            DecoderState {
                                consumed: self.consumed + 5,
                                write_pos: self.write_pos + len as nat,
                                pending_add: Some(len),
                                ..self
                            },
                            Ok((DecoderAction::Add { len }, 5)),
                        )
                    }
                },
                Ok(Opcode::End) => {
                    let ended = DecoderState { consumed: self.consumed + 1, ..self };
                    if self.consumed + 1 != self.total_size {
                        (ended, Err(DecodeError::PrematureEnd))
                    } else {
                        (
                            DecoderState { done: true, ..ended },
                            Ok((DecoderAction::Done, 1)),
                        )
                    }
                },
            }
        }
    }

    /// Reporting that `n` bytes of ADD data have been read.
    pub open spec fn advance(self, n: u32) -> (Self, Result<(), DecodeError>) {
        if self.pending_add == Some(n) {
            (
                DecoderState { pending_add: None, consumed: self.consumed + n as nat, ..self },
                Ok(()),
            )
        } else {
            (self, Err(DecodeError::AddLengthMismatch))
        }
    }
}

/// Every step of the decoder keeps its invariant, whatever bytes it is fed.
pub proof fn law_decoder_invariant(d: DecoderState, buf: Seq<u8>, n: u32)
    requires
        d.wf(),
    ensures
        d.next(buf).0.wf(),
        d.advance(n).0.wf(),
{
}

/// A buffer that is too short can be filled up and tried again: nothing has changed, and a
/// buffer that was long enough is decoded the same way whatever follows it.
pub proof fn law_short_buffer_can_be_retried(d: DecoderState, buf: Seq<u8>, more: Seq<u8>)
    ensures
        d.next(buf).1 == Err::<(DecoderAction, nat), DecodeError>(DecodeError::BufferTooShort)
            ==> d.next(buf).0 == d && buf.len() < MAX_OPCODE_HEADER,
        d.next(buf).1 != Err::<(DecoderAction, nat), DecodeError>(DecodeError::BufferTooShort)
            ==> d.next(buf + more) == d.next(buf),
{
    let longer = buf + more;
    assert(forall|i: int| 0 <= i < buf.len() ==> longer[i] == buf[i]);
}

/// The header length returned with an action never exceeds what was fed in.
pub proof fn lemma_header_within(d: DecoderState, buf: Seq<u8>)
    ensures
        d.next(buf).1 matches Ok((_, n)) ==> n <= buf.len(),
{
}

// ---------------------------------------------------------------------------
//  The executable decoder
// ---------------------------------------------------------------------------

/// Streaming opcode decoder.
///
/// Tracks how many payload bytes have been consumed, the current write position in the
/// reconstructed image, and rejects streams that violate size invariants (output overflow,
/// COPY out of base bounds).
pub struct Decoder {
    total_size: u32,
    consumed: u32,
    base_size: u32,
    target_size: u32,
    write_pos: u32,
    done: bool,
    pending_add: Option<u32>,
}

impl View for Decoder {
    type V = DecoderState;

    closed spec fn view(&self) -> DecoderState {
        DecoderState {
            total_size: self.total_size as nat,
            consumed: self.consumed as nat,
            base_size: self.base_size as nat,
            target_size: self.target_size as nat,
            write_pos: self.write_pos as nat,
            done: self.done,
            pending_add: self.pending_add,
        }
    }
}

/// Whether a result of [`Decoder::next_action`] is the one that the state machine gives.
pub open spec fn same_outcome(
    r: Result<(DecoderAction, usize), DecodeError>,
    s: Result<(DecoderAction, nat), DecodeError>,
) -> bool {
    match (r, s) {
        (Ok((a, n)), Ok((b, m))) => a == b && n == m,
        (Err(e), Err(f)) => e == f,
        _ => false,
    }
}

impl Decoder {
    #[verifier::type_invariant]
    spec fn inv(self) -> bool {
        self@.wf()
    }

    /// Create a new decoder.
    ///
    /// - `patch_payload_size`: total bytes in the opcode stream.
    /// - `base_size`: size of the base image (for COPY bounds checking).
    /// - `target_size`: size of the reconstructed image (for overflow checking).
    pub fn new(patch_payload_size: u32, base_size: u32, target_size: u32) -> (d: Self)
        ensures
            d@ == DecoderState::fresh(patch_payload_size, base_size, target_size),
            d@.wf(),
    {
        Decoder {
            total_size: patch_payload_size,
            consumed: 0,
            base_size,
            target_size,
            write_pos: 0,
            done: false,
            pending_add: None,
        }
    }

    /// Returns the number of patch payload bytes consumed so far.
    pub fn bytes_consumed(&self) -> (n: u32)
        ensures
            n == self@.consumed,
    {
        self.consumed
    }

    /// Returns the current write position in the reconstructed image.
    pub fn write_pos(&self) -> (n: u32)
        ensures
            n == self@.write_pos,
    {
        self.write_pos
    }

    /// Decode the next opcode from `buf`.
    ///
    /// On success, returns the action to perform and the number of bytes from `buf` that
    /// were consumed (the opcode header).  For `Add` actions, the literal data bytes are not
    /// consumed: the caller must read them separately and then report their count via
    /// [`Decoder::advance_add`].
    pub fn next_action(&mut self, buf: &[u8]) -> (r: Result<(DecoderAction, usize), DecodeError>)
        ensures
            final(self)@ == old(self)@.next(buf@).0,
            same_outcome(r, old(self)@.next(buf@).1),
            final(self)@.wf(),
    {
        proof {
            use_type_invariant(&*self);
        }
        if self.done {
            return Ok((DecoderAction::Done, 0));
        }
        // The caller must consume the literal data of a preceding ADD (via `advance_add`)
        // before decoding the next opcode.

        if self.pending_add.is_some() {
            return Err(DecodeError::PendingAddData);
        }
        // All declared payload bytes have been consumed but no END opcode was seen: the
        // stream is truncated.

        if self.consumed >= self.total_size {
            return Err(DecodeError::MissingEnd);
        }
        if buf.len() == 0 {
            return Err(DecodeError::BufferTooShort);
        }
        let tag: u8 = buf[0];
        if tag == OP_COPY {
            if buf.len() < 9 {
                return Err(DecodeError::BufferTooShort);
            }
            let src_offset: u32 = le::u32_le(buf, 1);
            let len: u32 = le::u32_le(buf, 5);
            if src_offset as u64 + len as u64 > self.base_size as u64 {
                return Err(DecodeError::CopyOutOfBounds);
            }
            if self.write_pos as u64 + len as u64 > self.target_size as u64 {
                return Err(DecodeError::OutputOverflow);
            }
            if self.total_size - self.consumed < 9 {
                return Err(DecodeError::OverlongStream);
            }
            self.consumed = self.consumed + 9;
            self.write_pos = self.write_pos + len;
            Ok((DecoderAction::Copy { src_offset, len }, 9))
        } else if tag == OP_ADD {
            if buf.len() < 5 {
                return Err(DecodeError::BufferTooShort);
            }
            let len: u32 = le::u32_le(buf, 1);
            if self.write_pos as u64 + len as u64 > self.target_size as u64 {
                return Err(DecodeError::OutputOverflow);
            }
            if self.consumed as u64 + 5 + len as u64 > self.total_size as u64 {
                return Err(DecodeError::OverlongStream);
            }
            // Only the 5-byte header is consumed here.

            self.consumed = self.consumed + 5;
            self.write_pos = self.write_pos + len;
            self.pending_add = Some(len);
            Ok((DecoderAction::Add { len }, 5))
        } else if tag == OP_END {
            self.consumed = self.consumed + 1;
            if self.consumed != self.total_size {
                return Err(DecodeError::PrematureEnd);
            }
            self.done = true;
            Ok((DecoderAction::Done, 1))
        } else {
            Err(DecodeError::UnknownOpcode(tag))
        }
    }

    /// Advance the consumed counter after the caller has externally read `n` bytes of ADD
    /// literal data from the patch stream.
    ///
    /// Must be called exactly once after each `Add { len }` action, with `n == len`;
    /// otherwise `AddLengthMismatch` is returned and nothing changes.
    pub fn advance_add(&mut self, n: u32) -> (r: Result<(), DecodeError>)
        ensures
            final(self)@ == old(self)@.advance(n).0,
            r == old(self)@.advance(n).1,
            final(self)@.wf(),
    {
        proof {
            use_type_invariant(&*self);
        }
        match self.pending_add {
            Some(expected) => {
                if expected == n {
                    self.pending_add = None;
                    self.consumed = self.consumed + n;
                    Ok(())
                } else {
                    Err(DecodeError::AddLengthMismatch)
                }
            },
            None => Err(DecodeError::AddLengthMismatch),
        }
    }

    /// Check whether the decoder has finished (received END).
    pub fn is_done(&self) -> (b: bool)
        ensures
            b == self@.done,
    {
        self.done
    }
}

// ---------------------------------------------------------------------------
//  Decoding a whole patch in memory
// ---------------------------------------------------------------------------

/// What became of decoding a whole patch in memory.
pub struct DecodeReport {
    /// The opcodes decoded, in order, up to END or the first error.
    pub ops: Vec<DecodedOp>,
    /// Number of patch bytes taken up by those opcodes.
    pub consumed: usize,
    /// The reconstructed image, or the error that decoding stopped with.
    pub outcome: Result<Vec<u8>, DecodeError>,
    /// The report on all of it.
    pub text: String,
}

/// The opcodes of a patch, the number of patch bytes that they take up, and the image or the
/// error that decoding came to.
type Decoding = (Vec<DecodedOp>, usize, Result<Vec<u8>, DecodeError>);

/// Whether `r` holds the decoded image (or error) `s`.
pub open spec fn same_image(
    r: Result<Vec<u8>, DecodeError>,
    s: Result<Seq<u8>, DecodeError>,
) -> bool {
    match (r, s) {
        (Ok(v), Ok(w)) => v@ == w,
        (Err(e), Err(f)) => e == f,
        _ => false,
    }
}

/// Decode an entire patch payload, reconstruct the output, and record every opcode.
///
/// This walks the full opcode stream and actually applies COPY/ADD operations against `old`
/// to produce the reconstructed image.
///
/// `target_size` is the expected size of the reconstructed image.  Pass `u32::MAX` to disable
/// overflow checking.
pub fn decode_to_report(patch: &[u8], old: &[u8], target_size: u32) -> (report: DecodeReport)
    ensures
        same_image(report.outcome, patch::apply(patch@, old@, target_size)),
        report.ops@ == patch::trace(
            DecoderState::fresh(patch@.len() as u32, old@.len() as u32, target_size),
            patch@,
            0,
        ),
        report.consumed == patch::wire_len(report.ops@),
        report.outcome is Ok ==> report.consumed == patch@.len() as u32,
        report.consumed <= patch@.len(),
        report.text@ == report::decoder_text(patch@, old@, target_size),
{
    let (ops, consumed, outcome) = decode_whole(patch, old, target_size);
    let text: String = report::decoder_text_of(patch, old, target_size, &ops, consumed, &outcome);
    DecodeReport { ops, consumed, outcome, text }
}

/// Decodes an entire patch payload, and records every opcode.
pub(crate) fn decode_whole(patch: &[u8], old: &[u8], target_size: u32) -> (r: Decoding)
    ensures
        same_image(r.2, patch::apply(patch@, old@, target_size)),
        r.0@ == patch::trace(
            DecoderState::fresh(patch@.len() as u32, old@.len() as u32, target_size),
            patch@,
            0,
        ),
        r.1 == patch::wire_len(r.0@),
        r.2 is Ok ==> r.1 == patch@.len() as u32,
        r.1 <= patch@.len(),
{
    let ghost init = DecoderState::fresh(patch@.len() as u32, old@.len() as u32, target_size);
    let mut decoder = Decoder::new(patch.len() as u32, old.len() as u32, target_size);
    let mut pos: usize = 0;
    let mut ops: Vec<DecodedOp> = Vec::new();
    let mut output: Vec<u8> = Vec::new();
    proof {
        patch::lemma_low_word(patch@.len());
        patch::lemma_low_word(old@.len());
        assert(patch@.skip(0) =~= patch@);
        patch::lemma_prepend_nothing(patch::apply(patch@, old@, target_size));
    }
    loop
        invariant
            pos <= patch@.len(),
            pos == patch::wire_len(ops@),
            init == DecoderState::fresh(patch@.len() as u32, old@.len() as u32, target_size),
            decoder@.wf(),
            decoder@.consumed == pos,
            decoder@.total_size == patch@.len() as u32,
            decoder@.total_size <= patch@.len(),
            decoder@.base_size <= old@.len(),
            !decoder@.done,
            decoder@.pending_add is None,
            patch::apply(patch@, old@, target_size) == patch::prepend(
                output@,
                patch::decode(decoder@, patch@.skip(pos as int), old@),
            ),
            patch::trace(init, patch@, 0) == ops@ + patch::trace(
                decoder@,
                patch@.skip(pos as int),
                pos as nat,
            ),
        decreases patch@.len() - pos,
    {
        let ghost rest = patch@.skip(pos as int);
        proof {
            patch::lemma_step(decoder@, rest, old@, pos as nat);
        }
        let write_pos: u32 = decoder.write_pos();
        let window: &[u8] = vstd::slice::slice_subrange(patch, pos, patch.len());
        assert(window@ =~= rest);
        match decoder.next_action(window) {
            Err(e) => {
                assert(ops@ + Seq::<DecodedOp>::empty() =~= ops@);
                return (ops, pos, Err(e));
            },
            Ok((DecoderAction::Copy { src_offset, len }, header)) => {
                let start: usize = src_offset as usize;
                let end: usize = start + len as usize;
                let ghost out0 = output@;
                let ghost ops0 = ops@;
                output.extend_from_slice(vstd::slice::slice_subrange(old, start, end));
                ops.push(DecodedOp::Copy { src_offset, len, write_pos });
                pos = pos + header;
                proof {
                    let op = DecodedOp::Copy { src_offset, len, write_pos };
                    let tail = patch::trace(decoder@, patch@.skip(pos as int), pos as nat);
                    assert(rest.skip(9) =~= patch@.skip(pos as int));
                    assert(output@ =~= out0 + old@.subrange(start as int, end as int));
                    patch::lemma_prepend_twice(
                        out0,
                        old@.subrange(start as int, end as int),
                        patch::decode(decoder@, patch@.skip(pos as int), old@),
                    );
                    assert(ops0 + (seq![op] + tail) =~= ops@ + tail);
                    assert(ops@.drop_last() =~= ops0);
                }
            },
            Ok((DecoderAction::Add { len }, header)) => {
                let data_start: usize = pos + header;
                let data_end: usize = data_start + len as usize;
                let ghost out0 = output@;
                let ghost ops0 = ops@;
                output.extend_from_slice(vstd::slice::slice_subrange(patch, data_start, data_end));
                ops.push(DecodedOp::Add { data_start, len, write_pos });
                let advanced = decoder.advance_add(len);
                assert(advanced is Ok);
                pos = data_end;
                proof {
                    let op = DecodedOp::Add { data_start, len, write_pos };
                    let tail = patch::trace(decoder@, patch@.skip(pos as int), pos as nat);
                    assert(rest.skip(5 + len) =~= patch@.skip(pos as int));
                    assert(rest.subrange(5, 5 + len) =~= patch@.subrange(
                        data_start as int,
                        data_end as int,
                    ));
                    assert(output@ =~= out0 + rest.subrange(5, 5 + len));
                    patch::lemma_prepend_twice(
                        out0,
                        rest.subrange(5, 5 + len),
                        patch::decode(decoder@, patch@.skip(pos as int), old@),
                    );
                    assert(ops0 + (seq![op] + tail) =~= ops@ + tail);
                    assert(ops@.drop_last() =~= ops0);
                }
            },
            Ok((DecoderAction::Done, header)) => {
                let ghost ops0 = ops@;
                ops.push(DecodedOp::End);
                assert(ops@.drop_last() =~= ops0);
                assert(output@ + Seq::<u8>::empty() =~= output@);
                return (ops, pos + header, Ok(output));
            },
        }
    }
}

// ---------------------------------------------------------------------------
//  What is taken, and what is refused
// ---------------------------------------------------------------------------

/// Whether the decoder stands between two opcodes, with declared bytes left.
pub open spec fn is_ready(d: DecoderState) -> bool {
    !d.done && d.pending_add is None && d.consumed < d.total_size
}

/// A decoder that is not ready takes nothing: after END it stays done, with the data of an ADD
/// outstanding it waits for that, and at the end of the declared stream it misses END.
pub proof fn law_decoder_that_is_not_ready(d: DecoderState, buf: Seq<u8>)
    requires
        !is_ready(d),
    ensures
        d.next(buf).0 == d,
        d.next(buf).1 == (if d.done {
            Ok((DecoderAction::Done, 0nat))
        } else if d.pending_add is Some {
            Err(DecodeError::PendingAddData)
        } else {
            Err(DecodeError::MissingEnd)
        }),
{
}

/// A COPY is taken whenever its source lies within the base, the image has room for it and the
/// declared stream has its nine bytes; otherwise the first of these that fails is reported, and
/// nothing changes.
pub proof fn law_copy_opcode(d: DecoderState, src_offset: u32, len: u32, rest: Seq<u8>)
    requires
        is_ready(d),
    ensures
        ({
            let buf = seq![1u8] + le::u32_bytes(src_offset) + le::u32_bytes(len) + rest;
            let (after, result) = d.next(buf);
            let outside = src_offset + len > d.base_size;
            let overflows = d.write_pos + len > d.target_size;
            let overlong = d.consumed + 9 > d.total_size;
            &&& result is Ok <==> !outside && !overflows && !overlong
            &&& result is Ok ==> {
                &&& result->Ok_0 == (DecoderAction::Copy { src_offset, len }, 9nat)
                &&& after.consumed == d.consumed + 9
                &&& after.write_pos == d.write_pos + len
                &&& after == DecoderState {
                    consumed: after.consumed,
                    write_pos: after.write_pos,
                    ..d
                }
            }
            &&& result is Err ==> after == d
            &&& outside ==> result->Err_0 is CopyOutOfBounds
            &&& !outside && overflows ==> result->Err_0 is OutputOverflow
            &&& !outside && !overflows && overlong ==> result->Err_0 is OverlongStream
        }),
{
    let buf = seq![1u8] + le::u32_bytes(src_offset) + le::u32_bytes(len) + rest;
    assert(buf.subrange(1, 5) =~= le::u32_bytes(src_offset));
    assert(buf.subrange(5, 9) =~= le::u32_bytes(len));
    le::lemma_u32_write_read(buf, 1, src_offset);
    le::lemma_u32_write_read(buf, 5, len);
}

/// An ADD is taken whenever the image has room for its data and the declared stream has its five
/// bytes and the data; otherwise the first of these that fails is reported, and nothing changes.
pub proof fn law_add_opcode(d: DecoderState, len: u32, rest: Seq<u8>)
    requires
        is_ready(d),
    ensures
        ({
            let buf = seq![2u8] + le::u32_bytes(len) + rest;
            let (after, result) = d.next(buf);
            let overflows = d.write_pos + len > d.target_size;
            let overlong = d.consumed + 5 + len > d.total_size;
            &&& result is Ok <==> !overflows && !overlong
            &&& result is Ok ==> {
                &&& result->Ok_0 == (DecoderAction::Add { len }, 5nat)
                &&& after.consumed == d.consumed + 5
                &&& after.write_pos == d.write_pos + len
                &&& after.pending_add == Some(len)
                &&& after == DecoderState {
                    consumed: after.consumed,
                    write_pos: after.write_pos,
                    pending_add: after.pending_add,
                    ..d
                }
            }
            &&& result is Err ==> after == d
            &&& overflows ==> result->Err_0 is OutputOverflow
            &&& !overflows && overlong ==> result->Err_0 is OverlongStream
        }),
{
    let buf = seq![2u8] + le::u32_bytes(len) + rest;
    assert(buf.subrange(1, 5) =~= le::u32_bytes(len));
    le::lemma_u32_write_read(buf, 1, len);
}

/// END is taken at the last declared byte and nowhere else, and its byte counts either way.  Any
/// other tag is unknown; an opcode that the buffer does not hold whole is too short, and only
/// that.
pub proof fn law_other_opcodes(d: DecoderState, buf: Seq<u8>)
    requires
        is_ready(d),
    ensures
        ({
            let (after, result) = d.next(buf);
            let is_short = buf.len() == 0 || (buf[0] == 1 && buf.len() < 9) || (buf[0] == 2
                && buf.len() < 5);
            &&& result == Err::<(DecoderAction, nat), DecodeError>(DecodeError::BufferTooShort)
                <==> is_short
            &&& is_short ==> after == d
            &&& buf.len() > 0 && buf[0] == 3 ==> {
                &&& after.consumed == d.consumed + 1
                &&& after.done <==> d.consumed + 1 == d.total_size
                &&& after == DecoderState { consumed: after.consumed, done: after.done, ..d }
                &&& after.done ==> result == Ok::<(DecoderAction, nat), DecodeError>(
                    (DecoderAction::Done, 1nat),
                )
                &&& !after.done ==> result == Err::<(DecoderAction, nat), DecodeError>(
                    DecodeError::PrematureEnd,
                )
            }
            &&& buf.len() > 0 && (buf[0] == 0 || buf[0] > 3) ==> after == d && result == Err::<
                (DecoderAction, nat),
                DecodeError,
            >(DecodeError::UnknownOpcode(buf[0]))
        }),
{
}

/// The data of an ADD is acknowledged once, and only in full: nothing else is, and then nothing
/// changes.
pub proof fn law_add_data_is_acknowledged_once(d: DecoderState, n: u32, again: u32)
    ensures
        ({
            let (after, result) = d.advance(n);
            &&& result is Ok <==> d.pending_add == Some(n)
            &&& result is Ok ==> {
                &&& after.consumed == d.consumed + n
                &&& after.pending_add is None
                &&& after == DecoderState {
                    consumed: after.consumed,
                    pending_add: after.pending_add,
                    ..d
                }
                &&& after.advance(again).1 == Err::<(), DecodeError>(DecodeError::AddLengthMismatch)
            }
            &&& result is Err ==> after == d && result->Err_0 is AddLengthMismatch
        }),
{
}

} // verus!

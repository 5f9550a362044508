//! The reconstructed image as a stream of chunks.
//!
//! The patch arrives in fragments and the base is read from flash, both on demand.  The stream
//! says what it needs next and hands out the image chunk by chunk; it performs no I/O itself.

use vstd::prelude::*;

use crate::bytes::{copy_of, part_of};
use crate::crc;
use crate::crc::Crc32State;
use crate::decoder;
use crate::decoder::{Decoder, DecoderAction, DecoderState};
use crate::error::DecodeError;
use crate::format::MAX_OPCODE_HEADER;
use crate::patch;
use crate::protocol::PACKET_BUFFER_SIZE;

verus! {

/// The smaller of two numbers.
pub open spec fn smaller(a: nat, b: nat) -> nat {
    if a < b {
        a
    } else {
        b
    }
}

/// The length of a chunk when at most `max_len` bytes are wanted and `left` bytes are left of
/// the opcode.
pub open spec fn chunk_len(max_len: nat, left: nat) -> nat {
    smaller(smaller(PACKET_BUFFER_SIZE as nat, max_len), left)
}

// ---------------------------------------------------------------------------
//  Buffering the patch
// ---------------------------------------------------------------------------

/// Buffers the patch opcode stream, which is pulled fragment by fragment on demand.  The
/// device drives the transfer: each pull requests `min(PACKET_BUFFER_SIZE, remaining)` bytes.
pub struct PatchReader {
    remaining: usize,
    buf: Vec<u8>,
    start: usize,
}

/// The mathematical state of a [`PatchReader`].
pub struct ReaderState {
    /// Bytes that have arrived and are not consumed.
    pub buffered: Seq<u8>,
    /// Number of bytes that have not arrived.
    pub remaining: nat,
}

impl ReaderState {
    /// The size of the next fragment to pull.
    pub open spec fn next_fragment(self) -> nat {
        smaller(PACKET_BUFFER_SIZE as nat, self.remaining)
    }
}

impl View for PatchReader {
    type V = ReaderState;

    closed spec fn view(&self) -> ReaderState {
        ReaderState { buffered: self.buf@.skip(self.start as int), remaining: self.remaining as nat }
    }
}

impl PatchReader {
    #[verifier::type_invariant]
    spec fn inv(self) -> bool {
        self.start <= self.buf@.len()
    }

    /// A reader of a patch of which nothing has arrived yet.
    pub fn new(patch_size: usize) -> (r: Self)
        ensures
            r@ == (ReaderState { buffered: Seq::empty(), remaining: patch_size as nat }),
    {
        let r = PatchReader { remaining: patch_size, buf: Vec::new(), start: 0 };
        assert(r@.buffered =~= Seq::<u8>::empty());
        r
    }

    /// Number of buffered bytes.
    pub fn available(&self) -> (n: usize)
        ensures
            n == self@.buffered.len(),
    {
        proof {
            use_type_invariant(self);
        }
        self.buf.len() - self.start
    }

    /// Number of bytes that have not arrived.
    pub fn remaining(&self) -> (n: usize)
        ensures
            n == self@.remaining,
    {
        self.remaining
    }

    /// The buffered bytes.
    pub fn peek(&self) -> (s: &[u8])
        ensures
            s@ == self@.buffered,
    {
        proof {
            use_type_invariant(self);
        }
        let s: &[u8] = vstd::slice::slice_subrange(self.buf.as_slice(), self.start, self.buf.len());
        assert(s@ =~= self@.buffered);
        s
    }

    /// Drops the first `n` buffered bytes.
    pub fn consume(&mut self, n: usize)
        requires
            n <= old(self)@.buffered.len(),
        ensures
            final(self)@ == (ReaderState {
                buffered: old(self)@.buffered.skip(n as int),
                ..old(self)@
            }),
    {
        proof {
            use_type_invariant(&*self);
        }
        assert(self.buf@.len() == self.buf.len());
        self.start = self.start + n;
        assert(self@.buffered =~= old(self)@.buffered.skip(n as int));
    }

    /// The size of the fragment to pull so that at least `k` bytes are buffered; `None` if
    /// they are, or if the patch stream is exhausted.
    pub fn ensure(&self, k: usize) -> (n: Option<usize>)
        ensures
            n is Some <==> self@.buffered.len() < k && self@.remaining > 0,
            n matches Some(size) ==> size == self@.next_fragment(),
    {
        if self.available() < k && self.remaining > 0 {
            if self.remaining < PACKET_BUFFER_SIZE {
                Some(self.remaining)
            } else {
                Some(PACKET_BUFFER_SIZE)
            }
        } else {
            None
        }
    }

    /// Takes in the fragment that was pulled.
    pub fn accept_fragment(&mut self, data: &[u8])
        requires
            data@.len() == old(self)@.next_fragment(),
        ensures
            final(self)@ == (ReaderState {
                buffered: old(self)@.buffered + data@,
                remaining: (old(self)@.remaining - data@.len()) as nat,
            }),
    {
        proof {
            use_type_invariant(&*self);
        }
        // Unconsumed bytes move to the front to make room.
        let mut buf: Vec<u8> = copy_of(self.peek());
        buf.extend_from_slice(data);
        let remaining: usize = self.remaining - data.len();
        *self = PatchReader { remaining, buf, start: 0 };
        assert(self@.buffered =~= old(self)@.buffered + data@);
    }

    /// Reads exactly `n` buffered bytes.
    pub fn read(&mut self, n: usize) -> (v: Vec<u8>)
        requires
            n <= old(self)@.buffered.len(),
        ensures
            v@ == old(self)@.buffered.take(n as int),
            final(self)@ == (ReaderState {
                buffered: old(self)@.buffered.skip(n as int),
                ..old(self)@
            }),
    {
        let v: Vec<u8> = part_of(self.peek(), 0, n);
        assert(v@ =~= old(self)@.buffered.take(n as int));
        self.consume(n);
        v
    }
}

// ---------------------------------------------------------------------------
//  The state of the stream
// ---------------------------------------------------------------------------

/// A decoder action that has been consumed only in part.
#[derive(Debug, Clone, Copy, PartialEq, Eq, Structural)]
pub enum PendingOp {
    /// There is none.
    Idle,
    /// `left` bytes of the base, from `src` on, are still to be copied.
    Copy { src: u32, left: u32 },
    /// `left` bytes of literal data are still to be added.  `total_len` is the action's
    /// whole length, needed for the single `advance_add` once `left` reaches 0.
    Add { total_len: u32, left: u32 },
}

/// Whether every pair of offset and data is what `base` holds at that offset.
pub open spec fn were_read_from(reads: Seq<(u32, Seq<u8>)>, base: Seq<u8>) -> bool {
    forall|k: int|
        0 <= k < reads.len() ==> {
            let (src, data) = #[trigger] reads[k];
            src + data.len() <= base.len() && data == base.subrange(src as int, src + data.len())
        }
}

/// The mathematical state of a [`ChunkStream`].
pub struct StreamState {
    pub reader: ReaderState,
    pub decoder: DecoderState,
    pub pending: PendingOp,
    /// The running CRC over everything handed out.
    pub crc: u32,
    /// Declared sizes.
    pub patch_size: u32,
    pub base_size: u32,
    pub target_size: u32,
    /// The part of the patch that has arrived.
    pub delivered: Seq<u8>,
    /// What was read from the base, and where.
    pub reads: Seq<(u32, Seq<u8>)>,
    /// What has been handed out of the image.
    pub produced: Seq<u8>,
}

impl StreamState {
    /// The state of a fresh stream.
    pub open spec fn fresh(patch_size: u32, base_size: u32, target_size: u32) -> Self {
        StreamState {
            reader: ReaderState { buffered: Seq::empty(), remaining: patch_size as nat },
            decoder: DecoderState::fresh(patch_size, base_size, target_size),
            pending: PendingOp::Idle,
            crc: crc::CRC32B_INIT,
            patch_size,
            base_size,
            target_size,
            delivered: Seq::empty(),
            reads: Seq::empty(),
            produced: Seq::empty(),
        }
    }

    /// Whether `patch` and `base` are a patch and a base from which everything that has
    /// arrived so far may have come.
    pub open spec fn may_come_from(self, patch: Seq<u8>, base: Seq<u8>) -> bool {
        &&& patch.len() == self.patch_size
        &&& base.len() == self.base_size
        &&& self.delivered.len() <= patch.len()
        &&& self.delivered == patch.take(self.delivered.len() as int)
        &&& were_read_from(self.reads, base)
    }

    /// What is still to be handed out, when `rest` is what has not arrived of the patch.
    pub open spec fn future(self, rest: Seq<u8>, base: Seq<u8>) -> Result<Seq<u8>, DecodeError> {
        let stream = self.reader.buffered + rest;
        match self.pending {
            PendingOp::Idle => patch::decode(self.decoder, stream, base),
            PendingOp::Copy { src, left } => patch::prepend(
                base.subrange(src as int, src + left),
                patch::decode(self.decoder, stream, base),
            ),
            PendingOp::Add { total_len, left } => if stream.len() < left {
                Err(DecodeError::BufferTooShort)
            } else {
                patch::prepend(
                    stream.take(left as int),
                    patch::decode(
                        self.decoder.advance(total_len).0,
                        stream.skip(left as int),
                        base,
                    ),
                )
            },
        }
    }

    /// What a whole patch makes of a whole base.
    pub open spec fn image(self, patch: Seq<u8>, base: Seq<u8>) -> Result<Seq<u8>, DecodeError> {
        patch::apply(patch, base, self.target_size)
    }

    /// Whatever patch and base everything may have come from: the image is what has been
    /// handed out, followed by what is still to be handed out.
    pub open spec fn sound(self) -> bool {
        forall|patch: Seq<u8>, base: Seq<u8>|
            #![trigger self.may_come_from(patch, base)]
            self.may_come_from(patch, base) ==> self.image(patch, base) == patch::prepend(
                self.produced,
                self.future(patch.skip(self.delivered.len() as int), base),
            )
    }

    /// The number of bytes that the current opcode still stands for.
    pub open spec fn pending_len(self) -> nat {
        match self.pending {
            PendingOp::Idle => 0,
            PendingOp::Copy { left, .. } => left as nat,
            PendingOp::Add { left, .. } => left as nat,
        }
    }

    /// What every reachable state satisfies.
    pub open spec fn wf(self) -> bool {
        &&& self.decoder.wf()
        &&& self.decoder.base_size == self.base_size
        &&& self.decoder.target_size == self.target_size
        &&& self.produced.len() + self.pending_len() == self.decoder.write_pos
        &&& self.delivered.len() + self.reader.remaining == self.patch_size
        &&& self.crc == crc::crc_run(crc::CRC32B_INIT, self.produced)
        &&& match self.pending {
            PendingOp::Idle => self.decoder.pending_add is None,
            PendingOp::Copy { src, left } => self.decoder.pending_add is None && 0 < left && src
                + left <= self.base_size,
            PendingOp::Add { total_len, left } => self.decoder.pending_add == Some(total_len) && 0
                < left <= total_len,
        }
        &&& self.sound()
    }

    /// Whether more of the patch has to arrive before a chunk of up to `max_len` bytes can be
    /// handed out.
    pub open spec fn lacks_patch(self, max_len: nat) -> bool {
        &&& self.reader.remaining > 0
        &&& match self.pending {
            PendingOp::Idle => self.reader.buffered.len() < MAX_OPCODE_HEADER,
            PendingOp::Copy { .. } => false,
            PendingOp::Add { left, .. } => self.reader.buffered.len() < chunk_len(
                max_len,
                left as nat,
            ),
        }
    }

    /// Whatever patch and base everything may have come from, the image is what has been
    /// handed out.
    pub open spec fn complete(self) -> bool {
        forall|patch: Seq<u8>, base: Seq<u8>|
            #![trigger self.may_come_from(patch, base)]
            self.may_come_from(patch, base) ==> self.image(patch, base) == Ok::<
                Seq<u8>,
                DecodeError,
            >(self.produced)
    }

    /// Whatever patch and base everything may have come from, there is no image.
    pub open spec fn hopeless(self) -> bool {
        forall|patch: Seq<u8>, base: Seq<u8>|
            #![trigger self.may_come_from(patch, base)]
            self.may_come_from(patch, base) ==> self.image(patch, base) is Err
    }

    /// Whether two states have seen and handed out the same.
    pub open spec fn same_history(self, other: Self) -> bool {
        &&& self.delivered == other.delivered
        &&& self.reads == other.reads
        &&& self.produced == other.produced
        &&& self.crc == other.crc
        &&& self.reader.remaining == other.reader.remaining
        &&& self.same_sizes(other)
    }

    /// Whether two states are of streams with the same declared sizes.
    pub open spec fn same_sizes(self, other: Self) -> bool {
        &&& self.patch_size == other.patch_size
        &&& self.base_size == other.base_size
        &&& self.target_size == other.target_size
    }
}

// ---------------------------------------------------------------------------
//  The steps of the stream
// ---------------------------------------------------------------------------

/// What comes after `n` bytes of the base have been copied.
pub open spec fn copied(src: u32, left: u32, n: int) -> PendingOp {
    if left - n == 0 {
        PendingOp::Idle
    } else {
        PendingOp::Copy { src: (src + n) as u32, left: (left - n) as u32 }
    }
}

/// What a stream needs or hands out next.
pub enum DemandView {
    Fragment(usize),
    Base { src: u32, len: usize },
    Chunk(Seq<u8>),
    End,
    Failed,
}

impl StreamState {
    /// The stream after a fragment of the patch has arrived.
    pub open spec fn with_fragment(self, data: Seq<u8>) -> Self {
        StreamState {
            reader: ReaderState {
                buffered: self.reader.buffered + data,
                remaining: (self.reader.remaining - data.len()) as nat,
            },
            delivered: self.delivered + data,
            ..self
        }
    }

    /// The stream after bytes of the base have been read and handed out.
    pub open spec fn with_base(self, data: Seq<u8>) -> Self {
        let src = self.pending->src;
        let left = self.pending->Copy_left;
        StreamState {
            pending: copied(src, left, data.len() as int),
            crc: crc::crc_run(self.crc, data),
            reads: self.reads.push((src, data)),
            produced: self.produced + data,
            ..self
        }
    }

    /// The stream after `n` buffered bytes of literal data have been handed out.
    pub open spec fn with_literal(self, n: nat) -> Self {
        let total_len = self.pending->total_len;
        let left = self.pending->Add_left;
        let data = self.reader.buffered.take(n as int);
        StreamState {
            reader: ReaderState { buffered: self.reader.buffered.skip(n as int), ..self.reader },
            decoder: if left == n {
                self.decoder.advance(total_len).0
            } else {
                self.decoder
            },
            pending: if left == n {
                PendingOp::Idle
            } else {
                PendingOp::Add { total_len, left: (left - n) as u32 }
            },
            crc: crc::crc_run(self.crc, data),
            produced: self.produced + data,
            ..self
        }
    }

    /// The stream after the opcode at the front of the buffered bytes has been taken up.
    pub open spec fn taken_up(self) -> Self {
        let (d, outcome) = self.decoder.next(self.reader.buffered);
        match outcome {
            Ok((DecoderAction::Copy { src_offset, len }, n)) => StreamState {
                reader: ReaderState { buffered: self.reader.buffered.skip(n as int), ..self.reader },
                decoder: d,
                pending: if len == 0 {
                    PendingOp::Idle
                } else {
                    PendingOp::Copy { src: src_offset, left: len }
                },
                ..self
            },
            Ok((DecoderAction::Add { len }, n)) => StreamState {
                reader: ReaderState { buffered: self.reader.buffered.skip(n as int), ..self.reader },
                decoder: if len == 0 {
                    d.advance(len).0
                } else {
                    d
                },
                pending: if len == 0 {
                    PendingOp::Idle
                } else {
                    PendingOp::Add { total_len: len, left: len }
                },
                ..self
            },
            Ok((DecoderAction::Done, n)) => StreamState {
                reader: ReaderState { buffered: self.reader.buffered.skip(n as int), ..self.reader },
                decoder: d,
                ..self
            },
            Err(_) => StreamState { decoder: d, ..self },
        }
    }

    /// Whether the next opcode cannot be told from what has arrived.
    pub open spec fn lacks_opcode(self) -> bool {
        self.reader.remaining > 0 && self.reader.buffered.len() < MAX_OPCODE_HEADER
    }

    /// Whether there is a COPY or an ADD to be taken up.
    pub open spec fn has_opcode(self) -> bool {
        &&& self.pending is Idle
        &&& !self.lacks_opcode()
        &&& self.decoder.next(self.reader.buffered).1 matches Ok((action, _)) && !(action is Done)
    }

    /// The stream with opcodes taken up until one stands for some bytes: those that stand for
    /// none are passed over.
    pub open spec fn settled(self) -> Self
        decreases self.reader.buffered.len(),
    {
        if self.has_opcode() {
            self.taken_up().settled()
        } else {
            self
        }
    }

    /// What is needed or handed out next when up to `max_len` bytes are wanted, and the stream
    /// after that.
    pub open spec fn demanded(self, max_len: nat) -> (Self, DemandView) {
        let s = self.settled();
        let fragment = DemandView::Fragment(s.reader.next_fragment() as usize);
        match s.pending {
            PendingOp::Idle => if s.lacks_opcode() {
                (s, fragment)
            } else if s.decoder.next(s.reader.buffered).1 is Ok {
                (s.taken_up(), DemandView::End)
            } else {
                (s.taken_up(), DemandView::Failed)
            },
            PendingOp::Copy { src, left } => (
                s,
                DemandView::Base { src, len: chunk_len(max_len, left as nat) as usize },
            ),
            PendingOp::Add { left, .. } => {
                let n = chunk_len(max_len, left as nat);
                if s.reader.buffered.len() >= n {
                    (s.with_literal(n), DemandView::Chunk(s.reader.buffered.take(n as int)))
                } else if s.reader.remaining > 0 {
                    (s, fragment)
                } else {
                    (s, DemandView::Failed)
                }
            },
        }
    }

    /// Whether this stream, and what is demanded of or handed out to a caller who wants up to
    /// `max_len` bytes, are in keeping with the stream `before`.
    pub open spec fn follows(self, before: Self, demand: DemandView, max_len: nat) -> bool {
        match demand {
            DemandView::Fragment(n) => {
                &&& self.wf()
                &&& self.same_history(before)
                &&& self.lacks_patch(max_len)
                &&& n == self.reader.next_fragment()
            },
            DemandView::Base { src, len } => {
                &&& self.wf()
                &&& self.same_history(before)
                &&& self.pending matches PendingOp::Copy { src: from, left } && src == from && len
                    == chunk_len(max_len, left as nat)
            },
            DemandView::Chunk(chunk) => {
                &&& self.wf()
                &&& self.same_sizes(before)
                &&& self.delivered == before.delivered
                &&& self.reads == before.reads
                &&& self.produced == before.produced + chunk
                &&& 0 < chunk.len() <= smaller(PACKET_BUFFER_SIZE as nat, max_len)
                &&& chunk.len() == smaller(PACKET_BUFFER_SIZE as nat, max_len)
                    || self.pending is Idle
            },
            DemandView::End => self.same_history(before) && self.complete(),
            DemandView::Failed => self.same_history(before) && self.hopeless(),
        }
    }
}

// ---------------------------------------------------------------------------
//  The stream
// ---------------------------------------------------------------------------

/// What a [`ChunkStream`] needs or hands out next.
pub enum Demand {
    /// Pull a fragment of this many bytes, and pass it to `accept_fragment`.
    Fragment(usize),
    /// Read `len` bytes of the base from offset `src` on, and pass them to `accept_base`.
    Base { src: u32, len: usize },
    /// The next bytes of the image.
    Chunk(Vec<u8>),
    /// The image is complete.
    End,
    /// The patch cannot be decoded.
    Failed,
}

impl View for Demand {
    type V = DemandView;

    open spec fn view(&self) -> DemandView {
        match self {
            Demand::Fragment(n) => DemandView::Fragment(*n),
            Demand::Base { src, len } => DemandView::Base { src: *src, len: *len },
            Demand::Chunk(chunk) => DemandView::Chunk(chunk@),
            Demand::End => DemandView::End,
            Demand::Failed => DemandView::Failed,
        }
    }
}

/// Produces the reconstructed image chunk by chunk, from the patch and the base.
pub struct ChunkStream {
    reader: PatchReader,
    decoder: Decoder,
    pending: PendingOp,
    crc: Crc32State,
    patch_size: Ghost<u32>,
    base_size: Ghost<u32>,
    target_size: Ghost<u32>,
    delivered: Ghost<Seq<u8>>,
    reads: Ghost<Seq<(u32, Seq<u8>)>>,
    produced: Ghost<Seq<u8>>,
}

impl View for ChunkStream {
    type V = StreamState;

    closed spec fn view(&self) -> StreamState {
        StreamState {
            reader: self.reader@,
            decoder: self.decoder@,
            pending: self.pending,
            crc: self.crc@,
            patch_size: self.patch_size@,
            base_size: self.base_size@,
            target_size: self.target_size@,
            delivered: self.delivered@,
            reads: self.reads@,
            produced: self.produced@,
        }
    }
}

/// A fresh stream is well-formed.
pub proof fn lemma_fresh(patch_size: u32, base_size: u32, target_size: u32)
    ensures
        StreamState::fresh(patch_size, base_size, target_size).wf(),
{
    let s = StreamState::fresh(patch_size, base_size, target_size);
    assert forall|patch: Seq<u8>, base: Seq<u8>|
        #![trigger s.may_come_from(patch, base)]
        s.may_come_from(patch, base) implies s.image(patch, base) == patch::prepend(
        s.produced,
        s.future(patch.skip(s.delivered.len() as int), base),
    ) by {
        assert(s.reader.buffered + patch.skip(0) =~= patch);
        patch::lemma_prepend_nothing(s.image(patch, base));
    }
}

/// Taking in a fragment keeps a stream well-formed.
pub proof fn lemma_fragment(s: StreamState, data: Seq<u8>)
    requires
        s.wf(),
        data.len() <= s.reader.remaining,
    ensures
        s.with_fragment(data).wf(),
{
    let t = s.with_fragment(data);
    assert forall|patch: Seq<u8>, base: Seq<u8>|
        #![trigger t.may_come_from(patch, base)]
        t.may_come_from(patch, base) implies t.image(patch, base) == patch::prepend(
        t.produced,
        t.future(patch.skip(t.delivered.len() as int), base),
    ) by {
        let whole = patch.take(t.delivered.len() as int);
        assert(s.delivered =~= whole.take(s.delivered.len() as int));
        assert(whole.take(s.delivered.len() as int) =~= patch.take(s.delivered.len() as int));
        assert(s.may_come_from(patch, base));
        let rest = patch.skip(s.delivered.len() as int);
        let rest2 = patch.skip(t.delivered.len() as int);
        assert forall|i: int| 0 <= i < data.len() implies data[i] == rest[i] by {
            assert(t.delivered[s.delivered.len() + i] == whole[s.delivered.len() + i]);
        }
        assert(rest =~= data + rest2);
        assert(s.reader.buffered + rest =~= t.reader.buffered + rest2);
    }
}

/// Handing out bytes of the base keeps a stream well-formed.
pub proof fn lemma_copied(s: StreamState, data: Seq<u8>)
    requires
        s.wf(),
        s.pending matches PendingOp::Copy { left, .. } && 0 < data.len() <= left,
    ensures
        s.with_base(data).wf(),
{
    let src = s.pending->src;
    let left = s.pending->Copy_left;
    let t = s.with_base(data);
    crc::law_crc_chunks(crc::CRC32B_INIT, s.produced, data);
    assert forall|patch: Seq<u8>, base: Seq<u8>|
        #![trigger t.may_come_from(patch, base)]
        t.may_come_from(patch, base) implies t.image(patch, base) == patch::prepend(
        t.produced,
        t.future(patch.skip(t.delivered.len() as int), base),
    ) by {
        assert forall|k: int| 0 <= k < s.reads.len() implies {
            let (src, data) = #[trigger] s.reads[k];
            src + data.len() <= base.len() && data == base.subrange(src as int, src + data.len())
        } by {
            assert(t.reads[k] == s.reads[k]);
        }
        assert(s.may_come_from(patch, base));
        assert(t.reads[s.reads.len() as int] == (src, data));
        let rest = patch.skip(s.delivered.len() as int);
        let after = patch::decode(s.decoder, s.reader.buffered + rest, base);
        let later = base.subrange(src + data.len(), src + left);
        assert(base.subrange(src as int, src + left) =~= data + later);
        patch::lemma_prepend_twice(data, later, after);
        patch::lemma_prepend_twice(s.produced, data, patch::prepend(later, after));
        if left == data.len() {
            assert(later =~= Seq::<u8>::empty());
            patch::lemma_prepend_nothing(after);
        }
    }
}

/// Handing out `n` buffered bytes of literal data keeps a stream well-formed.
proof fn lemma_added(s: StreamState, n: nat)
    requires
        s.wf(),
        s.pending matches PendingOp::Add { left, .. } && 0 < n <= left,
        n <= s.reader.buffered.len(),
    ensures
        s.with_literal(n).wf(),
{
    let total_len = s.pending->total_len;
    let left = s.pending->Add_left;
    let data = s.reader.buffered.take(n as int);
    let t = s.with_literal(n);
    crc::law_crc_chunks(crc::CRC32B_INIT, s.produced, data);
    assert forall|patch: Seq<u8>, base: Seq<u8>|
        #![trigger t.may_come_from(patch, base)]
        t.may_come_from(patch, base) implies t.image(patch, base) == patch::prepend(
        t.produced,
        t.future(patch.skip(t.delivered.len() as int), base),
    ) by {
        assert(s.may_come_from(patch, base));
        let rest = patch.skip(s.delivered.len() as int);
        let stream = s.reader.buffered + rest;
        let stream2 = t.reader.buffered + rest;
        assert(stream.skip(n as int) =~= stream2);
        if stream.len() >= left {
            let after = patch::decode(
                s.decoder.advance(total_len).0,
                stream.skip(left as int),
                base,
            );
            let later = stream2.take(left - n);
            assert(stream.take(left as int) =~= data + later);
            assert(stream2.skip(left - n) =~= stream.skip(left as int));
            patch::lemma_prepend_twice(data, later, after);
            patch::lemma_prepend_twice(s.produced, data, patch::prepend(later, after));
            if left == n {
                assert(later =~= Seq::<u8>::empty());
                assert(stream.skip(left as int) =~= stream2);
                patch::lemma_prepend_nothing(after);
            }
        }
    }
}

/// Enough buffered bytes decide what the next opcode is, whatever follows them.
proof fn lemma_enough_buffered(d: DecoderState, buffered: Seq<u8>, rest: Seq<u8>)
    requires
        buffered.len() >= MAX_OPCODE_HEADER || rest.len() == 0,
    ensures
        d.next(buffered + rest) == d.next(buffered),
{
    if rest.len() == 0 {
        assert(buffered + rest =~= buffered);
    } else {
        decoder::law_short_buffer_can_be_retried(d, buffered, rest);
    }
}

/// Taking up an opcode keeps a stream well-formed, except at the end of the stream and where
/// the patch cannot be decoded; there the image is what it should be.
proof fn lemma_taken_up(s: StreamState)
    requires
        s.wf(),
        s.pending is Idle,
        s.reader.buffered.len() >= MAX_OPCODE_HEADER || s.reader.remaining == 0,
    ensures
        match s.decoder.next(s.reader.buffered).1 {
            Err(_) => forall|patch: Seq<u8>, base: Seq<u8>|
                #![trigger s.may_come_from(patch, base)]
                s.may_come_from(patch, base) ==> s.image(patch, base) is Err,
            Ok((DecoderAction::Done, _)) => forall|patch: Seq<u8>, base: Seq<u8>|
                #![trigger s.may_come_from(patch, base)]
                s.may_come_from(patch, base) ==> s.image(patch, base) == Ok::<
                    Seq<u8>,
                    DecodeError,
                >(s.produced),
            Ok(_) => s.taken_up().wf(),
        },
{
    let t = s.taken_up();
    let (d, outcome) = s.decoder.next(s.reader.buffered);
    assert forall|patch: Seq<u8>, base: Seq<u8>| #![trigger s.may_come_from(patch, base)]
        s.may_come_from(patch, base) implies {
        let future = s.future(patch.skip(s.delivered.len() as int), base);
        let future2 = t.future(patch.skip(s.delivered.len() as int), base);
        match outcome {
            Err(e) => future == Err::<Seq<u8>, DecodeError>(e),
            Ok((DecoderAction::Done, _)) => future == Ok::<Seq<u8>, DecodeError>(Seq::empty()),
            Ok(_) => future == future2,
        }
    } by {
        let rest = patch.skip(s.delivered.len() as int);
        let stream = s.reader.buffered + rest;
        lemma_enough_buffered(s.decoder, s.reader.buffered, rest);
        patch::lemma_step(s.decoder, stream, base, 0);
        match outcome {
            Ok((DecoderAction::Copy { src_offset, len }, n)) => {
                assert(stream.skip(9) =~= s.reader.buffered.skip(9) + rest);
                if len == 0 {
                    assert(base.subrange(src_offset as int, src_offset + len) =~= Seq::<
                        u8,
                    >::empty());
                    patch::lemma_prepend_nothing(patch::decode(d, stream.skip(9), base));
                }
            },
            Ok((DecoderAction::Add { len }, n)) => {
                let stream2 = s.reader.buffered.skip(5) + rest;
                assert(stream.skip(5) =~= stream2);
                if stream.len() >= 5 + len {
                    assert(stream.subrange(5, 5 + len) =~= stream2.take(len as int));
                    assert(stream.skip(5 + len) =~= stream2.skip(len as int));
                    if len == 0 {
                        assert(stream2.take(0) =~= Seq::<u8>::empty());
                        assert(stream2.skip(0) =~= stream2);
                        patch::lemma_prepend_nothing(
                            patch::decode(d.advance(len).0, stream2, base),
                        );
                    }
                }
            },
            _ => {},
        }
    }
    match outcome {
        Err(_) => {},
        Ok((DecoderAction::Done, _)) => {
            assert(s.produced + Seq::<u8>::empty() =~= s.produced);
        },
        Ok(_) => {
            assert forall|patch: Seq<u8>, base: Seq<u8>|
                #![trigger t.may_come_from(patch, base)]
                t.may_come_from(patch, base) implies t.image(patch, base) == patch::prepend(
                t.produced,
                t.future(patch.skip(t.delivered.len() as int), base),
            ) by {
                assert(s.may_come_from(patch, base));
            }
        },
    }
}

/// What may have come from where depends on the history alone.
proof fn lemma_same_history(s: StreamState, t: StreamState)
    requires
        s.same_history(t),
    ensures
        t.complete() ==> s.complete(),
        t.hopeless() ==> s.hopeless(),
{
    assert forall|patch: Seq<u8>, base: Seq<u8>|
        #![trigger s.may_come_from(patch, base)]
        s.may_come_from(patch, base) implies t.may_come_from(patch, base) by {}
}

/// There is no image when literal data is missing at the end of the patch.
proof fn lemma_missing_data(s: StreamState)
    requires
        s.wf(),
        s.reader.remaining == 0,
        s.pending matches PendingOp::Add { left, .. } && s.reader.buffered.len() < left,
    ensures
        s.hopeless(),
{
    assert forall|patch: Seq<u8>, base: Seq<u8>|
        #![trigger s.may_come_from(patch, base)]
        s.may_come_from(patch, base) implies s.image(patch, base) is Err by {
        assert(patch.skip(s.delivered.len() as int).len() == 0);
    }
}

/// Taking up opcodes keeps a stream well-formed, and neither takes in nor hands out anything.
proof fn lemma_settled(s: StreamState)
    requires
        s.wf(),
    ensures
        s.settled().wf(),
        s.settled().same_history(s),
        !s.settled().has_opcode(),
    decreases s.reader.buffered.len(),
{
    if s.has_opcode() {
        lemma_taken_up(s);
        lemma_settled(s.taken_up());
    }
}

/// What a stream demands is what it needs, and what it hands out is right: whatever patch and
/// base everything may have come from, the end is reported only when the whole image has been
/// handed out, and failure only when there is no image.
pub proof fn law_demands_are_sound(s: StreamState, max_len: nat)
    requires
        s.wf(),
        max_len > 0,
    ensures
        s.demanded(max_len).0.follows(s, s.demanded(max_len).1, max_len),
{
    let t = s.settled();
    lemma_settled(s);
    match t.pending {
        PendingOp::Idle => {
            if !t.lacks_opcode() {
                lemma_taken_up(t);
                lemma_same_history(t.taken_up(), t);
            }
        },
        PendingOp::Copy { .. } => {},
        PendingOp::Add { left, .. } => {
            let n = chunk_len(max_len, left as nat);
            if t.reader.buffered.len() >= n {
                lemma_added(t, n);
            } else if t.reader.remaining == 0 {
                lemma_missing_data(t);
            }
        },
    }
}

fn size_of_chunk(max_len: usize, left: u32) -> (n: usize)
    ensures
        n == chunk_len(max_len as nat, left as nat),
{
    let limit: usize = if max_len < PACKET_BUFFER_SIZE {
        max_len
    } else {
        PACKET_BUFFER_SIZE
    };
    if (left as usize) < limit {
        left as usize
    } else {
        limit
    }
}

impl ChunkStream {
    /// A stream of which nothing has arrived and nothing has been handed out.
    pub fn new(patch_size: u32, base_size: u32, target_size: u32) -> (s: Self)
        ensures
            s@ == StreamState::fresh(patch_size, base_size, target_size),
            s@.wf(),
    {
        proof {
            lemma_fresh(patch_size, base_size, target_size);
        }
        ChunkStream {
            reader: PatchReader::new(patch_size as usize),
            decoder: Decoder::new(patch_size, base_size, target_size),
            pending: PendingOp::Idle,
            crc: Crc32State::new(),
            patch_size: Ghost(patch_size),
            base_size: Ghost(base_size),
            target_size: Ghost(target_size),
            delivered: Ghost(Seq::empty()),
            reads: Ghost(Seq::empty()),
            produced: Ghost(Seq::empty()),
        }
    }

    /// The CRC-32b of everything handed out.
    pub fn crc32(&self) -> (crc: u32)
        requires
            self@.crc == crc::crc_run(crc::CRC32B_INIT, self@.produced),
        ensures
            crc == crc::crc32_of(self@.produced),
    {
        self.crc.finalize()
    }

    /// Takes in the fragment that was asked for.
    pub fn accept_fragment(&mut self, data: &[u8])
        requires
            old(self)@.wf(),
            data@.len() == old(self)@.reader.next_fragment(),
        ensures
            final(self)@.wf(),
            final(self)@ == old(self)@.with_fragment(data@),
    {
        proof {
            lemma_fragment(self@, data@);
        }
        self.reader.accept_fragment(data);
        proof {
            self.delivered@ = self.delivered@ + data@;
        }
    }

    /// Takes in bytes of the base that were asked for: they are the next bytes of the image.
    pub fn accept_base(&mut self, data: &[u8])
        requires
            old(self)@.wf(),
            old(self)@.pending matches PendingOp::Copy { left, .. } && 0 < data@.len() <= left,
        ensures
            final(self)@.wf(),
            final(self)@ == old(self)@.with_base(data@),
    {
        proof {
            lemma_copied(self@, data@);
        }
        if let PendingOp::Copy { src, left } = self.pending {
            let n: u32 = data.len() as u32;
            self.crc.update(data);
            if left == n {
                self.pending = PendingOp::Idle;
            } else {
                self.pending = PendingOp::Copy { src: src + n, left: left - n };
            }
            proof {
                self.reads@ = self.reads@.push((src, data@));
                self.produced@ = self.produced@ + data@;
            }
        }
    }

    /// Says what is needed next, or hands out the next bytes of the image: at most `max_len`
    /// of them, and as many as the current opcode and the packet buffer allow.
    ///
    /// The end is reported only at the true end of the stream: opcodes that stand for no
    /// bytes are passed over.
    pub fn demand(&mut self, max_len: usize) -> (r: Demand)
        requires
            old(self)@.wf(),
            max_len > 0,
        ensures
            final(self)@ == old(self)@.demanded(max_len as nat).0,
            r@ == old(self)@.demanded(max_len as nat).1,
            final(self)@.follows(old(self)@, r@, max_len as nat),
    {
        proof {
            law_demands_are_sound(self@, max_len as nat);
        }
        while self.pending == PendingOp::Idle
            invariant
                self@.wf(),
                self@.settled() == old(self)@.settled(),
                max_len > 0,
                old(self)@.demanded(max_len as nat).0.follows(
                    old(self)@,
                    old(self)@.demanded(max_len as nat).1,
                    max_len as nat,
                ),
            decreases self@.reader.buffered.len(),
        {
            if let Some(n) = self.reader.ensure(MAX_OPCODE_HEADER) {
                return Demand::Fragment(n);
            }
            let ghost before = self@;
            proof {
                lemma_taken_up(before);
                decoder::lemma_header_within(before.decoder, before.reader.buffered);
            }
            match self.decoder.next_action(self.reader.peek()) {
                Err(_) => {
                    return Demand::Failed;
                },
                Ok((action, consumed)) => {
                    self.reader.consume(consumed);
                    match action {
                        DecoderAction::Copy { src_offset, len } => {
                            if len > 0 {
                                self.pending = PendingOp::Copy { src: src_offset, left: len };
                            }
                        },
                        DecoderAction::Add { len } => {
                            if len > 0 {
                                self.pending = PendingOp::Add { total_len: len, left: len };
                            } else {
                                let advanced = self.decoder.advance_add(0);
                                assert(advanced is Ok);
                            }
                        },
                        DecoderAction::Done => {
                            return Demand::End;
                        },
                    }
                    assert(self@ == before.taken_up());
                },
            }
        }
        match self.pending {
            PendingOp::Copy { src, left } => {
                let n: usize = size_of_chunk(max_len, left);
                Demand::Base { src, len: n }
            },
            PendingOp::Add { total_len, left } => {
                let n: usize = size_of_chunk(max_len, left);
                if let Some(size) = self.reader.ensure(n) {
                    return Demand::Fragment(size);
                }
                if self.reader.available() < n {
                    return Demand::Failed;
                }
                let chunk: Vec<u8> = self.reader.read(n);
                self.crc.update(&chunk);
                if left as usize == n {
                    let advanced = self.decoder.advance_add(total_len);
                    assert(advanced is Ok);
                    self.pending = PendingOp::Idle;
                } else {
                    self.pending = PendingOp::Add { total_len, left: left - n as u32 };
                }
                proof {
                    self.produced@ = self.produced@ + chunk@;
                }
                Demand::Chunk(chunk)
            },
            PendingOp::Idle => {
                assert(false);
                Demand::Failed
            },
        }
    }
}

/// How much is asked for and handed out at a time: fragments of 64 bytes, or what has not arrived,
/// and only while the next opcode may be incomplete or literal data is missing; of the base, and
/// of literal data, 64 bytes, or as many as are wanted, or what is left of the opcode, whichever is
/// least.
pub proof fn law_sizes_of_demands(s: StreamState, max_len: nat)
    requires
        s.wf(),
        max_len > 0,
    ensures
        ({
            let (t, demand) = s.demanded(max_len);
            match demand {
                DemandView::Fragment(n) => {
                    &&& 0 < n <= 64
                    &&& n <= t.reader.remaining
                    &&& n == 64 || n == t.reader.remaining
                    &&& match t.pending {
                        PendingOp::Idle => t.reader.buffered.len() < 9,
                        PendingOp::Copy { .. } => false,
                        PendingOp::Add { left, .. } => t.reader.buffered.len() < 64
                            && t.reader.buffered.len() < max_len && t.reader.buffered.len() < left,
                    }
                },
                DemandView::Base { src, len } => {
                    &&& t.pending matches PendingOp::Copy { src: from, left } && {
                        &&& src == from
                        &&& 0 < len <= 64
                        &&& len <= max_len
                        &&& len <= left
                        &&& len == 64 || len == max_len || len == left
                    }
                },
                DemandView::Chunk(chunk) => {
                    &&& 0 < chunk.len() <= 64
                    &&& chunk.len() <= max_len
                    &&& chunk.len() == 64 || chunk.len() == max_len || t.pending is Idle
                    &&& t.produced == s.produced + chunk
                },
                _ => true,
            }
        }),
{
    law_demands_are_sound(s, max_len);
}

} // verus!

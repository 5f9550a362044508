//! Reconstructing a component from a delta, directly into its final flash block.
//!
//! The image comes out of one continuous stream of chunks and goes through these stages:
//!
//! 1. **Prefix**: buffered, since nothing can be allocated yet; it is the smallest part of the
//!    image that determines how much flash and RAM the component needs.  Once it is there the
//!    final block is allocated and the prefix is flushed to it.
//! 2. **Header tail** (up to the payload): written verbatim.
//! 3. **Payload**: relocated in the same pass, so that already-relocated bytes are written.
//! 4. **Trailer**: kept for the checksum comparison; what is written in its place is the
//!    checksum of the relocated image.
//!
//! Nothing here performs I/O: each step says what is to be done outside, and is told what came
//! of it.

use vstd::prelude::*;

use crate::bytes::copy_of;
use crate::chunk_stream;
use crate::chunk_stream::{ChunkStream, Demand, DemandView, PendingOp, StreamState};
use crate::crc;
use crate::error::DecodeError;
use crate::format::DeltaHeader;
use crate::le;
use crate::message::MessageError;
use crate::patch;
use crate::protocol::PACKET_BUFFER_SIZE;

verus! {

/// Size of the trailer of an image.
pub const TRAILER_SIZE: usize = 4;

/// The contents of a block start this far behind its flash base address.
pub const BLOCK_CONTENTS_OFFSET: u32 = 8;

/// How far a reconstruction has come.
#[derive(Debug, Clone, Copy, PartialEq, Eq, Structural)]
pub enum Stage {
    /// The prefix is being buffered.
    Prefix,
    /// The prefix is there, and is to be parsed.
    PrefixReady,
    /// The final block is to be allocated.
    Allocation,
    /// The prefix is to be written.
    PrefixWrite,
    /// The header tail is being written.
    Tail,
    /// The header is to be flushed, so that it is readable from flash.
    TailFlush,
    /// The header is to be examined as it stands in flash.
    Examination,
    /// The payload is being relocated.
    Payload,
    /// The relocation is to be finished.
    RelocationEnd,
    /// The trailer is being read.
    Trailer,
    /// The stream must now be at its end.
    Drain,
    /// The trailer of the image is to be compared with the checksum.
    TrailerCheck,
    /// The new trailer is to be written.
    TrailerWrite,
    /// The installed image is to be validated.
    Validation,
    /// The component is installed.
    Done,
    /// The reconstruction has failed.
    Failed(MessageError),
}

/// What is to be done outside next.
pub enum Action {
    /// Nothing: go on.
    Again,
    /// Pull a fragment of `len` bytes of the patch; then `fragment_arrived`.
    PullFragment { len: usize },
    /// Read `len` bytes of the base from `src` on; then `base_read`.
    ReadBase { src: u32, len: usize },
    /// Parse the prefix; then `prefix_parsed`.
    ParsePrefix { prefix: Vec<u8> },
    /// Allocate a block for the component; then `allocated`.
    Allocate { flash: u32, ram: u32 },
    /// Write to the block at `offset`; then `written`.
    Write { offset: u32, data: Vec<u8>, flush: bool },
    /// Parse the header from flash, and validate version and dependencies; then
    /// `header_examined`.
    ExamineHeader,
    /// Relocate the next bytes of the payload, and write the result.
    Relocate { data: Vec<u8> },
    /// Relocate and write what is left; then `relocation_finished`.
    FinishRelocation,
    /// Validate the installed image; then `validated`.
    Validate,
    /// Nothing any more: the component is installed.
    Finished,
    /// Nothing any more, except to give back the block if there is one.
    GiveUp { error: MessageError, deallocate: bool },
}

/// An [`Action`], by what its bytes are.
pub enum ActionView {
    Again,
    PullFragment { len: usize },
    ReadBase { src: u32, len: usize },
    ParsePrefix { prefix: Seq<u8> },
    Allocate { flash: u32, ram: u32 },
    Write { offset: u32, data: Seq<u8>, flush: bool },
    ExamineHeader,
    Relocate { data: Seq<u8> },
    FinishRelocation,
    Validate,
    Finished,
    GiveUp { error: MessageError, deallocate: bool },
}

impl View for Action {
    type V = ActionView;

    open spec fn view(&self) -> ActionView {
        match self {
            Action::Again => ActionView::Again,
            Action::PullFragment { len } => ActionView::PullFragment { len: *len },
            Action::ReadBase { src, len } => ActionView::ReadBase { src: *src, len: *len },
            Action::ParsePrefix { prefix } => ActionView::ParsePrefix { prefix: prefix@ },
            Action::Allocate { flash, ram } => ActionView::Allocate { flash: *flash, ram: *ram },
            Action::Write { offset, data, flush } => ActionView::Write {
                offset: *offset,
                data: data@,
                flush: *flush,
            },
            Action::ExamineHeader => ActionView::ExamineHeader,
            Action::Relocate { data } => ActionView::Relocate { data: data@ },
            Action::FinishRelocation => ActionView::FinishRelocation,
            Action::Validate => ActionView::Validate,
            Action::Finished => ActionView::Finished,
            Action::GiveUp { error, deallocate } => ActionView::GiveUp {
                error: *error,
                deallocate: *deallocate,
            },
        }
    }
}

/// What the prefix of an image says.
#[derive(Debug, Clone, Copy, PartialEq, Eq, Structural)]
pub struct PrefixInfo {
    pub needed_flash: u32,
    pub needed_ram: u32,
    pub payload_offset: u32,
    pub checksum_offset: u32,
}

/// What went wrong outside.
#[derive(Debug, Clone, Copy, PartialEq, Eq, Structural)]
pub enum Failure {
    /// A fragment could not be pulled.
    Pull(MessageError),
    /// The base could not be read.
    BaseRead,
    /// The prefix could not be parsed.
    Parse(MessageError),
    /// There was no block to be had; `out_of_space` if for want of flash or RAM.
    Allocation { out_of_space: bool },
    /// The block could not be written.
    Write(MessageError),
    /// The header in flash is not acceptable.
    Examination(MessageError),
    /// The payload could not be relocated.
    Relocation,
    /// The installed image could not be validated.
    Validation(MessageError),
}

/// The error that a failure is reported as.
pub open spec fn error_of(stage: Stage, failure: Failure) -> MessageError {
    match failure {
        Failure::Pull(e) => e,
        Failure::BaseRead => MessageError::FlashError,
        Failure::Parse(e) => e,
        Failure::Allocation { out_of_space } => if out_of_space {
            MessageError::NotEnoughSpace
        } else {
            MessageError::FlashError
        },
        Failure::Write(e) => if stage is TrailerWrite {
            MessageError::FailedHBFValidation
        } else {
            e
        },
        Failure::Examination(e) => e,
        Failure::Relocation => MessageError::FlashError,
        Failure::Validation(e) => e,
    }
}

/// The mathematical state of a [`Reconstruction`].
pub struct ReconstructionState {
    pub stage: Stage,
    pub stream: StreamState,
    /// What has been taken from the stream: buffered, written, relocated or kept.
    pub taken: Seq<u8>,
    pub prefix_size: nat,
    pub target_size: u32,
    pub expected_crc: u32,
    /// What the prefix says, once it has been parsed.
    pub info: PrefixInfo,
    /// Where the payload ends, once the header has been examined.
    pub end: u32,
    /// The checksums of the image before and after relocation, once the relocation is over.
    pub validation_checksum: u32,
    pub new_checksum: u32,
    pub allocated: bool,
}

impl ReconstructionState {
    /// How many bytes are wanted from the stream in this stage.
    pub open spec fn wanted(self) -> int {
        match self.stage {
            Stage::Prefix => self.prefix_size - self.taken.len(),
            Stage::Tail => self.info.payload_offset - self.taken.len(),
            Stage::Payload => self.end - self.taken.len(),
            Stage::Trailer => self.trailer_start() + TRAILER_SIZE - self.taken.len(),
            Stage::Drain => PACKET_BUFFER_SIZE as int,
            _ => 0,
        }
    }

    /// Where the trailer starts: behind the payload, and behind the prefix in any case.
    pub open spec fn trailer_start(self) -> int {
        let after_prefix = self.prefix_size as int;
        let after_tail = if after_prefix < self.info.payload_offset {
            self.info.payload_offset as int
        } else {
            after_prefix
        };
        if after_tail < self.end {
            self.end as int
        } else {
            after_tail
        }
    }

    /// The trailer of the image, as far as it has been taken.
    pub open spec fn trailer(self) -> Seq<u8> {
        self.taken.skip(self.trailer_start())
    }

    /// Whether the reconstructed image is the one that was meant, as far as its size and its CRC
    /// tell.
    pub open spec fn image_is_whole(self) -> bool {
        &&& self.stream.complete()
        &&& self.stream.produced == self.taken
        &&& self.stream.target_size == self.target_size
        &&& self.taken.len() == self.target_size
        &&& crc::crc32_of(self.taken) == self.expected_crc
        &&& self.taken.len() == self.trailer_start() + TRAILER_SIZE
    }

    /// Whether the trailer of the image is the checksum that was reported for what comes before
    /// it.
    pub open spec fn trailer_is_right(self) -> bool {
        le::u32_at(self.taken, self.trailer_start()) == self.validation_checksum
    }

    /// Whether the reconstructed image is the one that was meant.
    pub open spec fn image_is_right(self) -> bool {
        self.image_is_whole() && self.trailer_is_right()
    }

    /// What every reachable state satisfies.
    pub open spec fn wf(self) -> bool {
        match self.stage {
            Stage::TrailerWrite | Stage::Validation | Stage::Done => self.image_is_right()
                && self.allocated,
            Stage::TrailerCheck => self.image_is_whole() && self.allocated,
            Stage::Failed(_) => true,
            _ => self.streaming() && self.placed(),
        }
    }

    /// Whether what has been taken is as much as the stage has it, and there is a block from
    /// the allocation on.
    pub open spec fn placed(self) -> bool {
        let n = self.taken.len();
        match self.stage {
            Stage::Prefix => n < self.prefix_size && !self.allocated,
            Stage::PrefixReady | Stage::Allocation => n == self.prefix_size && !self.allocated,
            Stage::PrefixWrite => n == self.prefix_size && self.allocated,
            Stage::Tail => {
                &&& n == self.prefix_size || self.prefix_size <= n <= self.info.payload_offset
                &&& self.allocated
            },
            Stage::TailFlush | Stage::Examination => n == self.payload_start() && self.allocated,
            Stage::Payload => {
                &&& n == self.payload_start() || self.payload_start() <= n <= self.end
                &&& self.allocated
            },
            Stage::RelocationEnd => n == self.trailer_start() && self.allocated,
            Stage::Trailer => {
                &&& self.trailer_start() <= n < self.trailer_start() + TRAILER_SIZE
                &&& self.allocated
            },
            Stage::Drain => {
                &&& n == self.trailer_start() + TRAILER_SIZE
                &&& n == self.target_size
                &&& self.allocated
            },
            _ => true,
        }
    }

    /// Where the payload starts: where the prefix says, but behind the prefix in any case.
    pub open spec fn payload_start(self) -> int {
        if self.prefix_size < self.info.payload_offset {
            self.info.payload_offset as int
        } else {
            self.prefix_size as int
        }
    }

    /// Whether the stream is in order, and everything it has handed out has been taken.
    pub open spec fn streaming(self) -> bool {
        &&& self.stream.wf()
        &&& self.stream.produced == self.taken
        &&& self.stream.target_size == self.target_size
    }
}

// ---------------------------------------------------------------------------
//  Steps
// ---------------------------------------------------------------------------

impl ReconstructionState {
    /// A reconstruction that has not begun, of the image that the delta header describes.
    pub open spec fn fresh(header: DeltaHeader, base_size: u32, prefix_size: nat) -> Self {
        ReconstructionState {
            stage: Stage::Prefix,
            stream: StreamState::fresh(
                header.patch_payload_size,
                base_size,
                header.target_size,
            ),
            taken: Seq::empty(),
            prefix_size,
            target_size: header.target_size,
            expected_crc: header.reconstructed_crc32,
            info: PrefixInfo {
                needed_flash: 0,
                needed_ram: 0,
                payload_offset: 0,
                checksum_offset: 0,
            },
            end: 0,
            validation_checksum: 0,
            new_checksum: 0,
            allocated: false,
        }
    }

    /// Whether bytes are to be taken from the stream now.
    pub open spec fn wants_bytes(self) -> bool {
        match self.stage {
            Stage::Prefix | Stage::Tail | Stage::Payload | Stage::Trailer | Stage::Drain =>
                self.wanted() > 0,
            _ => false,
        }
    }

    /// One more chunk taken from the stream, and what is to be done with it.
    pub open spec fn takes(self, chunk: Seq<u8>) -> (Self, ActionView) {
        let taken = self.taken + chunk;
        match self.stage {
            Stage::Prefix => (
                ReconstructionState {
                    taken,
                    stage: if taken.len() < self.prefix_size {
                        Stage::Prefix
                    } else {
                        Stage::PrefixReady
                    },
                    ..self
                },
                ActionView::Again,
            ),
            Stage::Tail => (
                ReconstructionState { taken, ..self },
                ActionView::Write {
                    offset: self.taken.len() as u32,
                    data: chunk,
                    flush: false,
                },
            ),
            Stage::Payload => (
                ReconstructionState { taken, ..self },
                ActionView::Relocate { data: chunk },
            ),
            Stage::Trailer => (
                ReconstructionState {
                    taken,
                    stage: if taken.len() < self.trailer_start() + TRAILER_SIZE {
                        Stage::Trailer
                    } else if taken.len() == self.target_size {
                        Stage::Drain
                    } else {
                        Stage::Failed(MessageError::FailedHBFValidation)
                    },
                    ..self
                },
                ActionView::Again,
            ),
            // There is more of the image than there should be.
            _ => (
                ReconstructionState {
                    taken,
                    stage: Stage::Failed(MessageError::FailedHBFValidation),
                    ..self
                },
                ActionView::Again,
            ),
        }
    }

    /// The stage that follows when the image is at its end.
    pub open spec fn stage_at_end(self) -> Stage {
        if !(self.stage is Drain) {
            Stage::Failed(MessageError::FailedHBFValidation)
        } else if crc::crc32_of(self.taken) != self.expected_crc {
            Stage::Failed(MessageError::DeltaReconstructMismatch)
        } else {
            Stage::TrailerCheck
        }
    }

    /// What is to be done in this state, which wants no bytes.
    pub open spec fn calls_for(self) -> ActionView {
        match self.stage {
            Stage::PrefixReady => ActionView::ParsePrefix { prefix: self.taken },
            Stage::Allocation => ActionView::Allocate {
                flash: self.info.needed_flash,
                ram: self.info.needed_ram,
            },
            Stage::PrefixWrite => ActionView::Write { offset: 0, data: self.taken, flush: false },
            Stage::TailFlush => ActionView::Write {
                offset: self.taken.len() as u32,
                data: Seq::empty(),
                flush: true,
            },
            Stage::Examination => ActionView::ExamineHeader,
            Stage::RelocationEnd => ActionView::FinishRelocation,
            Stage::TrailerWrite => ActionView::Write {
                offset: self.info.checksum_offset,
                data: le::u32_bytes(self.new_checksum),
                flush: true,
            },
            Stage::Validation => ActionView::Validate,
            Stage::Done => ActionView::Finished,
            Stage::Failed(e) => ActionView::GiveUp { error: e, deallocate: self.allocated },
            _ => ActionView::Again,
        }
    }

    /// The state after as much as possible has been done, and what is to be done outside.
    pub open spec fn polled(self) -> (Self, ActionView) {
        if self.wants_bytes() {
            let (stream, demand) = self.stream.demanded(self.wanted() as nat);
            let s = ReconstructionState { stream, ..self };
            match demand {
                DemandView::Fragment(len) => (s, ActionView::PullFragment { len }),
                DemandView::Base { src, len } => (s, ActionView::ReadBase { src, len }),
                DemandView::Chunk(chunk) => s.takes(chunk),
                DemandView::End => (
                    ReconstructionState { stage: s.stage_at_end(), ..s },
                    ActionView::Again,
                ),
                DemandView::Failed => (
                    ReconstructionState {
                        stage: Stage::Failed(MessageError::FailedHBFValidation),
                        ..s
                    },
                    ActionView::Again,
                ),
            }
        } else {
            let stage = match self.stage {
                Stage::Tail => Stage::TailFlush,
                Stage::Payload => Stage::RelocationEnd,
                Stage::TrailerCheck => if self.trailer_is_right() {
                    Stage::TrailerWrite
                } else {
                    Stage::Failed(MessageError::FailedHBFValidation)
                },
                stage => stage,
            };
            (ReconstructionState { stage, ..self }, self.calls_for())
        }
    }

    /// The state after a fragment of the patch has arrived.
    pub open spec fn with_fragment(self, data: Seq<u8>) -> Self {
        ReconstructionState { stream: self.stream.with_fragment(data), ..self }
    }

    /// The state after bytes of the base have been read, and what is to be done with them.
    pub open spec fn with_base(self, data: Seq<u8>) -> (Self, ActionView) {
        (ReconstructionState { stream: self.stream.with_base(data), ..self }).takes(data)
    }

    /// The state after the prefix has been parsed: the size must be the one that the delta
    /// header declares.
    pub open spec fn with_prefix(self, info: PrefixInfo) -> Self {
        ReconstructionState {
            info,
            stage: if info.needed_flash == self.target_size {
                Stage::Allocation
            } else {
                Stage::Failed(MessageError::FailedHBFValidation)
            },
            ..self
        }
    }

    /// The state after a block has been allocated.
    pub open spec fn with_block(self) -> Self {
        ReconstructionState { stage: Stage::PrefixWrite, allocated: true, ..self }
    }

    /// The state after what was to be written has been written.
    pub open spec fn with_write(self) -> Self {
        ReconstructionState {
            stage: match self.stage {
                Stage::PrefixWrite => Stage::Tail,
                Stage::TailFlush => Stage::Examination,
                Stage::TrailerWrite => Stage::Validation,
                stage => stage,
            },
            ..self
        }
    }

    /// The state after the header in flash has been examined.
    pub open spec fn with_header(self, payload_size: u32) -> Self {
        ReconstructionState {
            stage: Stage::Payload,
            end: (self.info.payload_offset + payload_size) as u32,
            ..self
        }
    }

    /// The state after the relocation has been finished.
    pub open spec fn with_checksums(self, validation_checksum: u32, new_checksum: u32) -> Self {
        ReconstructionState { stage: Stage::Trailer, validation_checksum, new_checksum, ..self }
    }

    /// The state after the installed image has been validated.
    pub open spec fn with_verdict(self, valid: bool) -> Self {
        ReconstructionState {
            stage: if valid {
                Stage::Done
            } else {
                Stage::Failed(MessageError::FailedHBFValidation)
            },
            ..self
        }
    }

    /// The state after something has failed outside.
    pub open spec fn with_failure(self, failure: Failure) -> Self {
        ReconstructionState { stage: Stage::Failed(error_of(self.stage, failure)), ..self }
    }

    /// Whether the data of `action`, which this state has called for, goes into the checksum
    /// that the trailer of the image is compared with: all of the image but the trailer does,
    /// and it does as it came out of the stream.
    pub open spec fn checksums(self, action: ActionView) -> bool {
        action is Relocate || (action is Write && !(self.stage is TrailerWrite))
    }
}

/// A step that takes bytes from the stream keeps the state well-formed, and what has arrived
/// stays what it was.
pub proof fn lemma_polled(s: ReconstructionState)
    requires
        s.wf(),
    ensures
        s.polled().0.wf(),
        s.polled().0.stream.delivered == s.stream.delivered,
        s.polled().0.stream.reads == s.stream.reads,
        s.polled().0.stream.same_sizes(s.stream),
        s.wants_bytes() ==> s.polled().0.stream.follows(
            s.stream,
            s.stream.demanded(s.wanted() as nat).1,
            s.wanted() as nat,
        ),
{
    if s.wants_bytes() {
        chunk_stream::law_demands_are_sound(s.stream, s.wanted() as nat);
        assert(s.streaming());
    }
}

/// The address of the payload of an image that stands in a block.
pub fn payload_address(flash_base: u32, payload_offset: u32) -> (a: u32)
    requires
        flash_base + BLOCK_CONTENTS_OFFSET + payload_offset <= u32::MAX,
    ensures
        a == flash_base + BLOCK_CONTENTS_OFFSET + payload_offset,
        a - flash_base == payload_offset + 8,
{
    flash_base + BLOCK_CONTENTS_OFFSET + payload_offset
}

/// Rebuilds a component from a patch and its base, into a final flash block.
pub struct Reconstruction {
    stage: Stage,
    stream: ChunkStream,
    prefix: Vec<u8>,
    trailer: Vec<u8>,
    cursor: u32,
    prefix_size: usize,
    target_size: u32,
    expected_crc: u32,
    info: PrefixInfo,
    end: u32,
    validation_checksum: u32,
    new_checksum: u32,
    allocated: bool,
    taken: Ghost<Seq<u8>>,
}

impl View for Reconstruction {
    type V = ReconstructionState;

    closed spec fn view(&self) -> ReconstructionState {
        ReconstructionState {
            stage: self.stage,
            stream: self.stream@,
            taken: self.taken@,
            prefix_size: self.prefix_size as nat,
            target_size: self.target_size,
            expected_crc: self.expected_crc,
            info: self.info,
            end: self.end,
            validation_checksum: self.validation_checksum,
            new_checksum: self.new_checksum,
            allocated: self.allocated,
        }
    }
}

impl Reconstruction {
    /// Whether the buffers hold what they should.
    spec fn buffers_ok(self) -> bool {
        &&& self.cursor == self.taken@.len()
        &&& self.stage is Prefix || self.stage is PrefixReady || self.stage is Allocation
            || self.stage is PrefixWrite ==> self.prefix@ == self.taken@
        &&& self.trailer@ == if self.stage is Trailer || self.stage is Drain
            || self.stage is TrailerCheck {
            self@.trailer()
        } else {
            Seq::empty()
        }
    }

    /// What every reachable reconstruction satisfies.
    pub closed spec fn wf(self) -> bool {
        self@.wf() && match self.stage {
            Stage::TrailerWrite | Stage::Validation | Stage::Done | Stage::Failed(_) => true,
            _ => self.buffers_ok(),
        }
    }

    /// A reconstruction of the image that the delta header describes, from a base of
    /// `base_size` bytes.  The first `prefix_size` bytes of the image say how it is laid out.
    pub fn new(header: &DeltaHeader, base_size: u32, prefix_size: usize) -> (r: Self)
        requires
            prefix_size > 0,
        ensures
            r.wf(),
            r@ == ReconstructionState::fresh(*header, base_size, prefix_size as nat),
    {
        Reconstruction {
            stage: Stage::Prefix,
            stream: ChunkStream::new(header.patch_payload_size, base_size, header.target_size),
            prefix: Vec::new(),
            trailer: Vec::new(),
            cursor: 0,
            prefix_size,
            target_size: header.target_size,
            expected_crc: header.reconstructed_crc32,
            info: PrefixInfo {
                needed_flash: 0,
                needed_ram: 0,
                payload_offset: 0,
                checksum_offset: 0,
            },
            end: 0,
            validation_checksum: 0,
            new_checksum: 0,
            allocated: false,
            taken: Ghost(Seq::empty()),
        }
    }

    /// How far the reconstruction has come.
    pub fn stage(&self) -> (s: Stage)
        ensures
            s == self@.stage,
    {
        self.stage
    }

    /// Whether the data of an action that was just called for goes into the checksum that the
    /// trailer of the image is compared with.
    pub fn is_checksummed(&self, action: &Action) -> (b: bool)
        ensures
            b == self@.checksums(action@),
    {
        match action {
            Action::Relocate { .. } => true,
            Action::Write { .. } => self.stage != Stage::TrailerWrite,
            _ => false,
        }
    }

    /// Takes a chunk that the stream has handed out.
    fn take_chunk(&mut self, chunk: Vec<u8>) -> (action: Action)
        requires
            old(self).buffers_ok(),
            old(self)@.wants_bytes(),
            old(self)@.stream.wf(),
            old(self)@.stream.target_size == old(self)@.target_size,
            old(self)@.stream.produced == old(self)@.taken + chunk@,
            0 < chunk@.len() <= old(self)@.wanted(),
            old(self)@.placed(),
        ensures
            final(self).wf(),
            final(self)@ == old(self)@.takes(chunk@).0,
            action@ == old(self)@.takes(chunk@).1,
    {
        let n: u32 = chunk.len() as u32;
        let offset: u32 = self.cursor;
        proof {
            self.taken@ = self.taken@ + chunk@;
        }
        self.cursor = self.cursor + n;
        match self.stage {
            Stage::Prefix => {
                self.prefix.extend_from_slice(&chunk);
                assert(self.prefix@ =~= self.taken@);
                if self.prefix.len() >= self.prefix_size {
                    self.stage = Stage::PrefixReady;
                }
                Action::Again
            },
            Stage::Tail => Action::Write { offset, data: chunk, flush: false },
            Stage::Payload => Action::Relocate { data: chunk },
            Stage::Trailer => {
                self.trailer.extend_from_slice(&chunk);
                assert(self.trailer@ =~= self@.trailer());
                if self.trailer.len() >= TRAILER_SIZE {
                    if self.cursor == self.target_size {
                        self.stage = Stage::Drain;
                    } else {
                        self.stage = Stage::Failed(MessageError::FailedHBFValidation);
                    }
                }
                Action::Again
            },
            _ => {
                self.stage = Stage::Failed(MessageError::FailedHBFValidation);
                Action::Again
            },
        }
    }

    /// Takes what is wanted from the stream, or says what the stream needs.
    fn poll_stream(&mut self) -> (action: Action)
        requires
            old(self).wf(),
            old(self)@.wants_bytes(),
        ensures
            final(self).wf(),
            final(self)@ == old(self)@.polled().0,
            action@ == old(self)@.polled().1,
    {
        proof {
            lemma_polled(self@);
        }
        let want: usize = match self.stage {
            Stage::Prefix => self.prefix_size - self.prefix.len(),
            Stage::Tail => (self.info.payload_offset - self.cursor) as usize,
            Stage::Payload => (self.end - self.cursor) as usize,
            Stage::Trailer => TRAILER_SIZE - self.trailer.len(),
            _ => PACKET_BUFFER_SIZE,
        };
        match self.stream.demand(want) {
            Demand::Fragment(len) => Action::PullFragment { len },
            Demand::Base { src, len } => Action::ReadBase { src, len },
            Demand::Chunk(chunk) => self.take_chunk(chunk),
            Demand::End => {
                if self.stage != Stage::Drain {
                    self.stage = Stage::Failed(MessageError::FailedHBFValidation);
                } else if self.stream.crc32() != self.expected_crc {
                    self.stage = Stage::Failed(MessageError::DeltaReconstructMismatch);
                } else {
                    self.stage = Stage::TrailerCheck;
                }
                Action::Again
            },
            Demand::Failed => {
                self.stage = Stage::Failed(MessageError::FailedHBFValidation);
                Action::Again
            },
        }
    }

    /// Goes on as far as possible, and says what is to be done outside.
    pub fn poll(&mut self) -> (action: Action)
        requires
            old(self).wf(),
        ensures
            final(self).wf(),
            final(self)@ == old(self)@.polled().0,
            action@ == old(self)@.polled().1,
            final(self)@.stream.delivered == old(self)@.stream.delivered,
            final(self)@.stream.reads == old(self)@.stream.reads,
            final(self)@.stream.same_sizes(old(self)@.stream),
            old(self)@.wants_bytes() ==> final(self)@.stream.follows(
                old(self)@.stream,
                old(self)@.stream.demanded(old(self)@.wanted() as nat).1,
                old(self)@.wanted() as nat,
            ),
    {
        proof {
            lemma_polled(self@);
        }
        match self.stage {
            Stage::Prefix | Stage::Trailer | Stage::Drain => self.poll_stream(),
            Stage::Tail => {
                if self.cursor < self.info.payload_offset {
                    self.poll_stream()
                } else {
                    self.stage = Stage::TailFlush;
                    Action::Again
                }
            },
            Stage::Payload => {
                if self.cursor < self.end {
                    self.poll_stream()
                } else {
                    self.stage = Stage::RelocationEnd;
                    Action::Again
                }
            },
            Stage::PrefixReady => Action::ParsePrefix { prefix: copy_of(&self.prefix) },
            Stage::Allocation => Action::Allocate {
                flash: self.info.needed_flash,
                ram: self.info.needed_ram,
            },
            Stage::PrefixWrite => Action::Write {
                offset: 0,
                data: copy_of(&self.prefix),
                flush: false,
            },
            Stage::TailFlush => {
                let data: Vec<u8> = Vec::new();
                assert(data@ =~= Seq::<u8>::empty());
                Action::Write { offset: self.cursor, data, flush: true }
            },
            Stage::Examination => Action::ExamineHeader,
            Stage::RelocationEnd => Action::FinishRelocation,
            Stage::TrailerCheck => {
                if le::u32_le(&self.trailer, 0) != self.validation_checksum {
                    self.stage = Stage::Failed(MessageError::FailedHBFValidation);
                } else {
                    self.stage = Stage::TrailerWrite;
                }
                Action::Again
            },
            Stage::TrailerWrite => {
                let mut data: Vec<u8> = Vec::new();
                le::push_u32(&mut data, self.new_checksum);
                assert(data@ =~= le::u32_bytes(self.new_checksum));
                Action::Write { offset: self.info.checksum_offset, data, flush: true }
            },
            Stage::Validation => Action::Validate,
            Stage::Done => Action::Finished,
            Stage::Failed(error) => Action::GiveUp { error, deallocate: self.allocated },
        }
    }

    /// A fragment of the patch has arrived.
    pub fn fragment_arrived(&mut self, data: &[u8])
        requires
            old(self).wf(),
            old(self)@.wants_bytes(),
            data@.len() == old(self)@.stream.reader.next_fragment(),
        ensures
            final(self).wf(),
            final(self)@ == old(self)@.with_fragment(data@),
    {
        self.stream.accept_fragment(data);
    }

    /// Bytes of the base have been read: they are the next bytes of the image.
    pub fn base_read(&mut self, data: &[u8]) -> (action: Action)
        requires
            old(self).wf(),
            old(self)@.wants_bytes(),
            old(self)@.stream.pending matches PendingOp::Copy { left, .. } && 0 < data@.len()
                <= left,
            data@.len() <= old(self)@.wanted(),
        ensures
            final(self).wf(),
            final(self)@ == old(self)@.with_base(data@).0,
            action@ == old(self)@.with_base(data@).1,
            final(self)@.stream.delivered == old(self)@.stream.delivered,
            final(self)@.stream.reads == old(self)@.stream.reads.push(
                (old(self)@.stream.pending->src, data@),
            ),
            final(self)@.stream.same_sizes(old(self)@.stream),
    {
        self.stream.accept_base(data);
        self.take_chunk(copy_of(data))
    }

    /// The prefix has been parsed.
    pub fn prefix_parsed(&mut self, info: PrefixInfo)
        requires
            old(self).wf(),
            old(self)@.stage is PrefixReady,
        ensures
            final(self).wf(),
            final(self)@ == old(self)@.with_prefix(info),
    {
        self.info = info;
        if info.needed_flash != self.target_size {
            self.stage = Stage::Failed(MessageError::FailedHBFValidation);
        } else {
            self.stage = Stage::Allocation;
        }
    }

    /// The block has been allocated.
    pub fn allocated(&mut self)
        requires
            old(self).wf(),
            old(self)@.stage is Allocation,
        ensures
            final(self).wf(),
            final(self)@ == old(self)@.with_block(),
    {
        self.allocated = true;
        self.stage = Stage::PrefixWrite;
    }

    /// What was to be written has been written.
    pub fn written(&mut self)
        requires
            old(self).wf(),
        ensures
            final(self).wf(),
            final(self)@ == old(self)@.with_write(),
    {
        match self.stage {
            Stage::PrefixWrite => {
                self.stage = Stage::Tail;
            },
            Stage::TailFlush => {
                self.stage = Stage::Examination;
            },
            Stage::TrailerWrite => {
                self.stage = Stage::Validation;
            },
            _ => {},
        }
    }

    /// The header in flash is acceptable, and says how large the payload is.
    pub fn header_examined(&mut self, payload_size: u32)
        requires
            old(self).wf(),
            old(self)@.stage is Examination,
            old(self)@.info.payload_offset + payload_size <= u32::MAX,
        ensures
            final(self).wf(),
            final(self)@ == old(self)@.with_header(payload_size),
    {
        self.end = self.info.payload_offset + payload_size;
        self.stage = Stage::Payload;
    }

    /// The relocation is over.  `validation_checksum` is the checksum of the data of all the
    /// actions that `is_checksummed` has marked; `new_checksum` is that of what stands in the
    /// block instead.
    pub fn relocation_finished(&mut self, validation_checksum: u32, new_checksum: u32)
        requires
            old(self).wf(),
            old(self)@.stage is RelocationEnd,
        ensures
            final(self).wf(),
            final(self)@ == old(self)@.with_checksums(validation_checksum, new_checksum),
    {
        self.validation_checksum = validation_checksum;
        self.new_checksum = new_checksum;
        self.stage = Stage::Trailer;
        assert(self.trailer@ =~= self@.trailer());
    }

    /// The installed image has been validated.
    pub fn validated(&mut self, valid: bool)
        requires
            old(self).wf(),
            old(self)@.stage is Validation,
        ensures
            final(self).wf(),
            final(self)@ == old(self)@.with_verdict(valid),
    {
        if valid {
            self.stage = Stage::Done;
        } else {
            self.stage = Stage::Failed(MessageError::FailedHBFValidation);
        }
    }

    /// What was to be done outside has failed.
    pub fn failed(&mut self, failure: Failure)
        requires
            old(self).wf(),
        ensures
            final(self).wf(),
            final(self)@ == old(self)@.with_failure(failure),
    {
        let error: MessageError = match failure {
            Failure::Pull(e) => e,
            Failure::BaseRead => MessageError::FlashError,
            Failure::Parse(e) => e,
            Failure::Allocation { out_of_space } => if out_of_space {
                MessageError::NotEnoughSpace
            } else {
                MessageError::FlashError
            },
            Failure::Write(e) => if self.stage == Stage::TrailerWrite {
                MessageError::FailedHBFValidation
            } else {
                e
            },
            Failure::Examination(e) => e,
            Failure::Relocation => MessageError::FlashError,
            Failure::Validation(e) => e,
        };
        self.stage = Stage::Failed(error);
    }
}

// ---------------------------------------------------------------------------
//  Laws
// ---------------------------------------------------------------------------

/// A reconstruction is in a well-formed state.
pub proof fn law_reconstruction_is_well_formed(r: Reconstruction)
    requires
        r.wf(),
    ensures
        r@.wf(),
{
}

/// What is installed is right: from the writing of the new trailer on, the image taken from
/// the stream is the one that the patch makes of the base, it has the declared size and the
/// declared CRC, and its trailer is the checksum that was reported for what comes before it.
pub proof fn law_installed_image_is_right(
    s: ReconstructionState,
    patch: Seq<u8>,
    base: Seq<u8>,
)
    requires
        s.wf(),
        s.stage is TrailerWrite || s.stage is Validation || s.stage is Done,
        s.stream.may_come_from(patch, base),
    ensures
        patch::apply(patch, base, s.target_size) == Ok::<Seq<u8>, DecodeError>(s.taken),
        s.taken.len() == s.target_size,
        crc::crc32_of(s.taken) == s.expected_crc,
        le::u32_at(s.taken, s.trailer_start()) == s.validation_checksum,
{
}

/// What is called for, and when.  The prefix is parsed when all of it is there, and only it; a
/// block is asked for with the flash and RAM that the prefix says; the prefix goes to the start of
/// the block, each part of the header tail to where it stands in the image, and the new trailer,
/// lowest byte first, to where the prefix says; a failure is reported as it is, and a block is given
/// back exactly if there is one.
pub proof fn law_what_is_called_for(s: ReconstructionState)
    requires
        s.wf(),
    ensures
        match s.polled().1 {
            ActionView::Again => true,
            ActionView::PullFragment { len } => s.wants_bytes() && 0 < len <= 64,
            ActionView::ReadBase { len, .. } => s.wants_bytes() && 0 < len <= 64 && len
                <= s.wanted(),
            ActionView::ParsePrefix { prefix } => s.stage is PrefixReady && prefix == s.taken
                && prefix.len() == s.prefix_size,
            ActionView::Allocate { flash, ram } => s.stage is Allocation && flash
                == s.info.needed_flash && ram == s.info.needed_ram && !s.allocated,
            ActionView::Write { offset, data, flush } => match s.stage {
                Stage::PrefixWrite => offset == 0 && data == s.taken && data.len() == s.prefix_size
                    && !flush,
                Stage::Tail => offset == s.taken.len() as u32 && 0 < data.len() <= 64 && data.len()
                    <= s.info.payload_offset - s.taken.len() && !flush,
                Stage::TailFlush => offset == s.taken.len() as u32 && data.len() == 0 && flush,
                Stage::TrailerWrite => {
                    &&& offset == s.info.checksum_offset
                    &&& data.len() == 4
                    &&& s.new_checksum == data[0] + 256 * data[1] + 65536 * data[2] + 16777216
                        * data[3]
                    &&& flush
                },
                _ => false,
            },
            ActionView::ExamineHeader => s.stage is Examination,
            ActionView::Relocate { data } => s.stage is Payload && 0 < data.len() <= 64
                && data.len() <= s.end - s.taken.len(),
            ActionView::FinishRelocation => s.stage is RelocationEnd,
            ActionView::Validate => s.stage is Validation,
            ActionView::Finished => s.stage is Done,
            ActionView::GiveUp { error, deallocate } => s.stage == Stage::Failed(error)
                && deallocate == s.allocated,
        },
{
    if s.wants_bytes() {
        chunk_stream::law_sizes_of_demands(s.stream, s.wanted() as nat);
        assert(s.streaming());
    } else if s.stage is TrailerWrite {
        let bytes = le::u32_bytes(s.new_checksum);
        assert(bytes.subrange(0, 4) =~= bytes);
        le::lemma_u32_write_read(bytes, 0, s.new_checksum);
    }
}

/// No stage that waits for something outside is passed over: each calls for its own action, and
/// stays as it is until it is told what came of it.
pub proof fn law_stages_wait(s: ReconstructionState)
    ensures
        s.stage is PrefixReady ==> s.polled().1 is ParsePrefix,
        s.stage is Allocation ==> s.polled().1 is Allocate,
        s.stage is PrefixWrite ==> s.polled().1 is Write,
        s.stage is TailFlush ==> s.polled().1 is Write,
        s.stage is Examination ==> s.polled().1 is ExamineHeader,
        s.stage is RelocationEnd ==> s.polled().1 is FinishRelocation,
        s.stage is TrailerWrite ==> s.polled().1 is Write,
        s.stage is Validation ==> s.polled().1 is Validate,
        s.stage is Done ==> s.polled().1 is Finished,
        s.stage is Failed ==> s.polled().1 is GiveUp,
        match s.stage {
            Stage::Prefix
            | Stage::Tail
            | Stage::Payload
            | Stage::Trailer
            | Stage::Drain
            | Stage::TrailerCheck => true,
            _ => s.polled().0 == s,
        },
{
}

/// The place of a stage in the course of a reconstruction.
pub open spec fn place_of(stage: Stage) -> int {
    match stage {
        Stage::Prefix => 0,
        Stage::PrefixReady => 1,
        Stage::Allocation => 2,
        Stage::PrefixWrite => 3,
        Stage::Tail => 4,
        Stage::TailFlush => 5,
        Stage::Examination => 6,
        Stage::Payload => 7,
        Stage::RelocationEnd => 8,
        Stage::Trailer => 9,
        Stage::Drain => 10,
        Stage::TrailerCheck => 11,
        Stage::TrailerWrite => 12,
        Stage::Validation => 13,
        Stage::Done => 14,
        Stage::Failed(_) => 15,
    }
}

/// Polling leaves a reconstruction in its stage, takes it to the next one, or ends it with the
/// error that the image is to blame for; it says that the image is another one only if its CRC is
/// not the declared one.
pub proof fn law_polling_goes_step_by_step(s: ReconstructionState)
    requires
        s.wf(),
    ensures
        ({
            let t = s.polled().0;
            let (from, to) = (place_of(s.stage), place_of(t.stage));
            &&& to == from || to == from + 1 || t.stage == Stage::Failed(
                MessageError::FailedHBFValidation,
            ) || t.stage == Stage::Failed(MessageError::DeltaReconstructMismatch)
            &&& s.stage is Drain && t.stage == Stage::Failed(
                MessageError::DeltaReconstructMismatch,
            ) ==> crc::crc32_of(s.taken) != s.expected_crc
            &&& t.stage == Stage::Failed(MessageError::DeltaReconstructMismatch) && t.stage
                != s.stage ==> s.stage is Drain
            &&& s.stage is TrailerCheck ==> (t.stage is TrailerWrite <==> le::u32_at(
                s.taken,
                s.trailer_start(),
            ) == s.validation_checksum)
            &&& t.stage is TrailerCheck && s.stage is Drain ==> crc::crc32_of(s.taken)
                == s.expected_crc && s.taken.len() == s.target_size
            &&& t.info == s.info && t.allocated == s.allocated && t.end == s.end
            &&& t.new_checksum == s.new_checksum && t.validation_checksum == s.validation_checksum
        }),
{
    lemma_polled(s);
    if s.wants_bytes() {
        chunk_stream::law_demands_are_sound(s.stream, s.wanted() as nat);
    }
}

/// What a report from outside leads to: each takes the reconstruction from the stage that waits for
/// it to the next one, with what it brings remembered as it is; a prefix that declares another size
/// than the delta header, and an installed image that is not valid, end it.
pub proof fn law_reports(
    s: ReconstructionState,
    info: PrefixInfo,
    payload_size: u32,
    checksum: u32,
    new_checksum: u32,
)
    requires
        s.info.payload_offset + payload_size <= u32::MAX,
    ensures
        ({
            let refused = Stage::Failed(MessageError::FailedHBFValidation);
            &&& s.with_prefix(info).info == info
            &&& info.needed_flash == s.target_size ==> s.with_prefix(info).stage is Allocation
            &&& info.needed_flash != s.target_size ==> s.with_prefix(info).stage == refused
            &&& s.with_block().stage is PrefixWrite && s.with_block().allocated
            &&& s.stage is PrefixWrite ==> s.with_write().stage is Tail
            &&& s.stage is TailFlush ==> s.with_write().stage is Examination
            &&& s.stage is TrailerWrite ==> s.with_write().stage is Validation
            &&& s.stage is Tail ==> s.with_write() == s
            &&& s.with_header(payload_size).stage is Payload
            &&& s.with_header(payload_size).end == s.info.payload_offset + payload_size
            &&& s.with_checksums(checksum, new_checksum).stage is Trailer
            &&& s.with_checksums(checksum, new_checksum).validation_checksum == checksum
            &&& s.with_checksums(checksum, new_checksum).new_checksum == new_checksum
            &&& s.with_verdict(true).stage is Done
            &&& s.with_verdict(false).stage == refused
        }),
{
}

/// What a failure outside is reported as.  A step that names its error is reported with it, except
/// that a trailer that cannot be written leaves an image that is not valid; what concerns flash
/// alone is a flash error, and a want of room is named as such.  Nothing else changes: a block that
/// there is is still there to be given back.
pub proof fn law_failures_are_reported(s: ReconstructionState, e: MessageError)
    ensures
        s.with_failure(Failure::Pull(e)).stage == Stage::Failed(e),
        s.with_failure(Failure::Parse(e)).stage == Stage::Failed(e),
        s.with_failure(Failure::Examination(e)).stage == Stage::Failed(e),
        s.with_failure(Failure::Validation(e)).stage == Stage::Failed(e),
        !(s.stage is TrailerWrite) ==> s.with_failure(Failure::Write(e)).stage == Stage::Failed(e),
        s.stage is TrailerWrite ==> s.with_failure(Failure::Write(e)).stage == Stage::Failed(
            MessageError::FailedHBFValidation,
        ),
        s.with_failure(Failure::BaseRead).stage == Stage::Failed(MessageError::FlashError),
        s.with_failure(Failure::Relocation).stage == Stage::Failed(MessageError::FlashError),
        s.with_failure(Failure::Allocation { out_of_space: true }).stage == Stage::Failed(
            MessageError::NotEnoughSpace,
        ),
        s.with_failure(Failure::Allocation { out_of_space: false }).stage == Stage::Failed(
            MessageError::FlashError,
        ),
        forall|failure: Failure|
            (#[trigger] s.with_failure(failure)).allocated == s.allocated && s.with_failure(
                failure,
            ).taken == s.taken,
{
}

/// What goes into the checksum of the image: the data of everything that is written or relocated
/// in any stage, but for the new trailer.
pub proof fn law_what_is_checksummed(s: ReconstructionState, action: ActionView)
    ensures
        s.stage is TrailerWrite ==> (s.checksums(action) <==> action is Relocate),
        !(s.stage is TrailerWrite) ==> (s.checksums(action) <==> action is Relocate || action
            is Write),
{
}

/// A reconstruction begins with nothing taken and no block, for the sizes and the CRC that the
/// delta header declares.
pub proof fn law_reconstruction_begins(header: DeltaHeader, base_size: u32, prefix_size: nat)
    ensures
        ({
            let s = ReconstructionState::fresh(header, base_size, prefix_size);
            &&& s.stage is Prefix
            &&& s.taken.len() == 0 && s.stream.produced.len() == 0 && !s.allocated
            &&& s.prefix_size == prefix_size && s.wanted() == prefix_size
            &&& s.target_size == header.target_size
            &&& s.expected_crc == header.reconstructed_crc32
            &&& s.stream.patch_size == header.patch_payload_size
            &&& s.stream.base_size == base_size
            &&& s.stream.target_size == header.target_size
            &&& s.stream.reader.remaining == header.patch_payload_size
        }),
{
}

/// How much is taken in each stage: the prefix up to its size, the header tail up to where the
/// prefix says that the payload starts, the payload up to its end, and four bytes of trailer behind
/// all of these; nothing at any other time.
pub proof fn law_how_much_is_taken(s: ReconstructionState)
    requires
        s.wf(),
    ensures
        ({
            let n = s.taken.len() as int;
            let t = s.polled().0;
            &&& s.stage is Prefix && !(t.stage is Failed) ==> t.taken.len() <= s.prefix_size && (
            t.stage is PrefixReady <==> t.taken.len() == s.prefix_size)
            &&& s.stage is Tail && t.stage is TailFlush ==> n >= s.info.payload_offset
            &&& s.stage is Tail && n >= s.info.payload_offset ==> t.stage is TailFlush
            &&& s.stage is Payload && t.stage is RelocationEnd ==> n >= s.end
            &&& s.stage is Payload && n >= s.end ==> t.stage is RelocationEnd
            &&& s.stage is Trailer && t.stage is Drain ==> t.taken.len() == s.target_size
            &&& s.stage is Trailer && s.prefix_size <= s.info.payload_offset <= s.end && t.stage
                is Drain ==> t.taken.len() == s.end + 4
            &&& !(s.stage is Prefix || s.stage is Tail || s.stage is Payload || s.stage is Trailer
                || s.stage is Drain) ==> t.taken == s.taken
        }),
{
    lemma_polled(s);
    if s.wants_bytes() {
        chunk_stream::law_demands_are_sound(s.stream, s.wanted() as nat);
    }
}

/// How much is wanted of the stream in each stage, and where payload and trailer start: behind
/// everything that comes before them, even where the header has it otherwise.
pub proof fn law_what_is_wanted(s: ReconstructionState)
    ensures
        ({
            let n = s.taken.len() as int;
            let (prefix, tail, end) = (
                s.prefix_size as int,
                s.info.payload_offset as int,
                s.end as int,
            );
            &&& s.stage is Prefix ==> s.wanted() == prefix - n
            &&& s.stage is Tail ==> s.wanted() == tail - n
            &&& s.stage is Payload ==> s.wanted() == end - n
            &&& s.stage is Trailer ==> s.wanted() == s.trailer_start() + 4 - n
            &&& s.stage is Drain ==> s.wanted() == 64
            &&& s.wants_bytes() <==> s.wanted() > 0
            &&& s.payload_start() >= prefix && s.payload_start() >= tail
            &&& s.payload_start() == prefix || s.payload_start() == tail
            &&& s.trailer_start() >= prefix && s.trailer_start() >= tail && s.trailer_start() >= end
            &&& s.trailer_start() == prefix || s.trailer_start() == tail || s.trailer_start() == end
        }),
{
}

/// What ends a reconstruction while the image comes in: a patch that cannot be decoded, an image
/// that is at its end before all of it is there, and one that goes on behind its trailer, all make
/// it an image that is not valid; an image of the right size with another CRC is another image.
pub proof fn law_what_is_wrong_with_an_image(s: ReconstructionState)
    requires
        s.wants_bytes(),
    ensures
        ({
            let demand = s.stream.demanded(s.wanted() as nat).1;
            let stage = s.polled().0.stage;
            let refused = Stage::Failed(MessageError::FailedHBFValidation);
            let other = Stage::Failed(MessageError::DeltaReconstructMismatch);
            &&& demand is Failed ==> stage == refused
            &&& demand is End && !(s.stage is Drain) ==> stage == refused
            &&& demand is Chunk && s.stage is Drain ==> stage == refused
            &&& demand is End && s.stage is Drain ==> stage == (if crc::crc32_of(s.taken)
                == s.expected_crc {
                Stage::TrailerCheck
            } else {
                other
            })
        }),
{
}

/// Bytes of the base go where the bytes of the patch go: to the place in the block where they stand
/// in the image, or to be relocated, or into what is kept of prefix and trailer; and bytes that come
/// behind the trailer make the image one that is not valid.
pub proof fn law_bytes_of_the_base(s: ReconstructionState, data: Seq<u8>)
    ensures
        ({
            let (t, action) = s.with_base(data);
            &&& t.taken == s.taken + data
            &&& s.stage is Tail ==> action == (ActionView::Write {
                offset: s.taken.len() as u32,
                data,
                flush: false,
            }) && t.stage is Tail
            &&& s.stage is Payload ==> action == (ActionView::Relocate { data }) && t.stage
                is Payload
            &&& s.stage is Prefix || s.stage is Trailer || s.stage is Drain ==> action is Again
            &&& s.stage is Prefix ==> (t.stage is PrefixReady <==> t.taken.len() >= s.prefix_size)
            &&& s.stage is Prefix && !(t.stage is PrefixReady) ==> t.stage is Prefix
            &&& s.stage is Trailer && t.taken.len() < s.trailer_start() + 4 ==> t.stage is Trailer
            &&& s.stage is Trailer && t.taken.len() >= s.trailer_start() + 4 ==> t.stage == (
            if t.taken.len() == s.target_size {
                Stage::Drain
            } else {
                Stage::Failed(MessageError::FailedHBFValidation)
            })
            &&& s.stage is Drain ==> t.stage == Stage::Failed(MessageError::FailedHBFValidation)
        }),
{
}

} // verus!

//! A whole reconstruction, from the first call to the last.
//!
//! Whoever drives a [`Reconstruction`](crate::reconstruct::Reconstruction) performs the action
//! that it calls for, reports what came of it, and polls again.  Here stands what holds of every
//! such run: what is handed out, where it goes, and what it is.

use vstd::prelude::*;

use crate::chunk_stream;
use crate::chunk_stream::PendingOp;
use crate::crc;
use crate::error::DecodeError;
use crate::format::DeltaHeader;
use crate::le;
use crate::patch;
use crate::reconstruct;
use crate::reconstruct::{
    ActionView, Failure, PrefixInfo, ReconstructionState, Stage, TRAILER_SIZE,
};

verus! {

/// A call of a method of a reconstruction.
pub enum Call {
    Poll,
    FragmentArrived(Seq<u8>),
    BaseRead(Seq<u8>),
    PrefixParsed(PrefixInfo),
    Allocated,
    Written,
    HeaderExamined(u32),
    RelocationFinished { validation_checksum: u32, new_checksum: u32 },
    Validated(bool),
    Failed(Failure),
}

impl ReconstructionState {
    /// Whether the call may be made in this state.
    pub open spec fn admits(self, call: Call) -> bool {
        match call {
            Call::FragmentArrived(data) => self.wants_bytes() && data.len()
                == self.stream.reader.next_fragment(),
            Call::BaseRead(data) => {
                &&& self.wants_bytes()
                &&& self.stream.pending matches PendingOp::Copy { left, .. } && 0 < data.len()
                    <= left
                &&& data.len() <= self.wanted()
            },
            Call::PrefixParsed(_) => self.stage is PrefixReady,
            Call::Allocated => self.stage is Allocation,
            Call::HeaderExamined(payload_size) => self.stage is Examination
                && self.info.payload_offset + payload_size <= u32::MAX,
            Call::RelocationFinished { .. } => self.stage is RelocationEnd,
            Call::Validated(_) => self.stage is Validation,
            Call::Poll | Call::Written | Call::Failed(_) => true,
        }
    }

    /// The state after the call, and what is to be done then.
    pub open spec fn next(self, call: Call) -> (Self, ActionView) {
        match call {
            Call::Poll => self.polled(),
            Call::FragmentArrived(data) => (self.with_fragment(data), ActionView::Again),
            Call::BaseRead(data) => self.with_base(data),
            Call::PrefixParsed(info) => (self.with_prefix(info), ActionView::Again),
            Call::Allocated => (self.with_block(), ActionView::Again),
            Call::Written => (self.with_write(), ActionView::Again),
            Call::HeaderExamined(payload_size) => (
                self.with_header(payload_size),
                ActionView::Again,
            ),
            Call::RelocationFinished { validation_checksum, new_checksum } => (
                self.with_checksums(validation_checksum, new_checksum),
                ActionView::Again,
            ),
            Call::Validated(valid) => (self.with_verdict(valid), ActionView::Again),
            Call::Failed(failure) => (self.with_failure(failure), ActionView::Again),
        }
    }
}

/// Whether the call reports what came of the action.
pub open spec fn answers(call: Call, action: ActionView) -> bool {
    match action {
        ActionView::Again => call is Poll,
        ActionView::PullFragment { len } => call is Failed || (call matches Call::FragmentArrived(
            data,
        ) && data.len() == len),
        ActionView::ReadBase { len, .. } => call is Failed || (call matches Call::BaseRead(data)
            && data.len() == len),
        ActionView::ParsePrefix { .. } => call is Failed || call is PrefixParsed,
        ActionView::Allocate { .. } => call is Failed || call is Allocated,
        ActionView::Write { .. } => call is Failed || call is Written,
        ActionView::ExamineHeader => call is Failed || call is HeaderExamined,
        ActionView::Relocate { .. } => call is Failed || call is Poll,
        ActionView::FinishRelocation => call is Failed || call is RelocationFinished,
        ActionView::Validate => call is Failed || call is Validated,
        ActionView::Finished | ActionView::GiveUp { .. } => false,
    }
}

/// The bytes that an action hands out.
pub open spec fn data_of(action: ActionView) -> Seq<u8> {
    match action {
        ActionView::Write { data, .. } => data,
        ActionView::Relocate { data } => data,
        _ => Seq::empty(),
    }
}

/// A reconstruction under way, with what it has done outside.
pub struct Installation {
    pub state: ReconstructionState,
    /// What is to be done next.
    pub due: ActionView,
    /// What has been handed out to be written or relocated, except for the new trailer; all of
    /// it goes into the checksum that the trailer of the image is compared with.
    pub handed: Seq<u8>,
    /// How many blocks have been allocated.
    pub blocks: nat,
}

impl Installation {
    /// The beginning.
    pub open spec fn begin(header: DeltaHeader, base_size: u32, prefix_size: nat) -> Self {
        Installation {
            state: ReconstructionState::fresh(header, base_size, prefix_size),
            due: ActionView::Again,
            handed: Seq::empty(),
            blocks: 0,
        }
    }

    /// Whether the call is the next one that a driver makes.
    pub open spec fn awaits(self, call: Call) -> bool {
        self.state.admits(call) && answers(call, self.due)
    }

    /// The installation after a call.
    pub open spec fn after(self, call: Call) -> Self {
        let (state, due) = self.state.next(call);
        Installation {
            state,
            due,
            handed: if state.checksums(due) {
                self.handed + data_of(due)
            } else {
                self.handed
            },
            blocks: if call is Allocated {
                self.blocks + 1
            } else {
                self.blocks
            },
        }
    }

    /// The installation after a run of calls.
    pub open spec fn run(self, calls: Seq<Call>) -> Self
        decreases calls.len(),
    {
        if calls.len() == 0 {
            self
        } else {
            self.run(calls.drop_last()).after(calls.last())
        }
    }

    /// Whether a driver makes these calls, one after the other.
    pub open spec fn driven_by(self, calls: Seq<Call>) -> bool
        decreases calls.len(),
    {
        calls.len() > 0 ==> {
            &&& self.driven_by(calls.drop_last())
            &&& self.run(calls.drop_last()).awaits(calls.last())
        }
    }

    /// Whether what the call brings in is what comes next of `patch`, or what `base` holds where
    /// it was to be read.
    pub open spec fn is_supplied(self, call: Call, patch: Seq<u8>, base: Seq<u8>) -> bool {
        match call {
            Call::FragmentArrived(data) => {
                let at = self.state.stream.delivered.len() as int;
                at + data.len() <= patch.len() && data == patch.subrange(at, at + data.len())
            },
            Call::BaseRead(data) => {
                let at = self.state.stream.pending->src as int;
                at + data.len() <= base.len() && data == base.subrange(at, at + data.len())
            },
            _ => true,
        }
    }

    /// Whether everything that the calls bring in comes from `patch` and `base`.
    pub open spec fn supplied_by(self, calls: Seq<Call>, patch: Seq<u8>, base: Seq<u8>) -> bool
        decreases calls.len(),
    {
        calls.len() > 0 ==> {
            &&& self.supplied_by(calls.drop_last(), patch, base)
            &&& self.run(calls.drop_last()).is_supplied(calls.last(), patch, base)
        }
    }

    /// Whether as much has been handed out as the stage has it, and into one block.
    pub open spec fn wf(self) -> bool {
        let taken = self.state.taken;
        &&& self.state.wf()
        &&& self.blocks == if self.state.allocated {
            1nat
        } else {
            0nat
        }
        &&& self.handed.len() <= taken.len() && self.handed == taken.take(self.handed.len() as int)
        &&& match self.state.stage {
            Stage::Prefix | Stage::PrefixReady | Stage::Allocation => self.handed.len() == 0,
            Stage::PrefixWrite => if self.due is Write {
                self.handed == taken
            } else {
                self.due is Again && self.handed.len() == 0
            },
            Stage::Tail
            | Stage::TailFlush
            | Stage::Examination
            | Stage::Payload
            | Stage::RelocationEnd => self.handed == taken,
            Stage::Trailer
            | Stage::Drain
            | Stage::TrailerCheck
            | Stage::TrailerWrite
            | Stage::Validation
            | Stage::Done => self.handed.len() == self.state.trailer_start(),
            Stage::Failed(_) => true,
        }
    }

    /// Whether the bytes that are to be written or relocated now are the last of those handed
    /// out, and go where they belong in the image.
    pub open spec fn in_place(self) -> bool {
        let n = self.handed.len();
        match self.due {
            ActionView::Write { offset, data, .. } => self.state.stage is TrailerWrite || (offset
                + data.len() == n && data == self.handed.skip(offset as int)),
            ActionView::Relocate { data } => data.len() <= n && data == self.handed.skip(
                n - data.len(),
            ),
            _ => true,
        }
    }
}

// ---------------------------------------------------------------------------
//  Laws
// ---------------------------------------------------------------------------

/// A call that may be made keeps a reconstruction well-formed.
pub proof fn law_calls_keep_the_invariant(s: ReconstructionState, call: Call)
    requires
        s.wf(),
        s.admits(call),
    ensures
        s.next(call).0.wf(),
{
    match call {
        Call::Poll => {
            reconstruct::lemma_polled(s);
        },
        Call::FragmentArrived(data) => {
            chunk_stream::lemma_fragment(s.stream, data);
        },
        Call::BaseRead(data) => {
            chunk_stream::lemma_copied(s.stream, data);
        },
        _ => {},
    }
}

/// Taking a chunk keeps what holds of an installation.
proof fn lemma_takes(i: Installation, s: ReconstructionState, chunk: Seq<u8>, j: Installation)
    requires
        i.wf(),
        s == (ReconstructionState { stream: s.stream, ..i.state }),
        s.wants_bytes(),
        (j.state, j.due) == s.takes(chunk),
        j.state.wf(),
        j.state.stage is Failed || j.state.taken.len() <= u32::MAX,
        j.blocks == i.blocks,
        j.handed == if j.state.checksums(j.due) {
            i.handed + data_of(j.due)
        } else {
            i.handed
        },
    ensures
        j.wf(),
        j.in_place(),
{
    let taken = i.state.taken;
    assert(j.state.taken == taken + chunk);
    match s.stage {
        Stage::Tail | Stage::Payload => {
            assert(j.handed =~= taken + chunk);
            assert((taken + chunk).take((taken + chunk).len() as int) =~= taken + chunk);
            assert((taken + chunk).skip(taken.len() as int) =~= chunk);
        },
        _ => {
            assert((taken + chunk).take(i.handed.len() as int) =~= taken.take(
                i.handed.len() as int,
            ));
        },
    }
}

/// A poll keeps what holds of an installation.
proof fn lemma_poll(i: Installation)
    requires
        i.wf(),
        i.awaits(Call::Poll),
    ensures
        i.after(Call::Poll).wf(),
        i.after(Call::Poll).in_place(),
{
    let s = i.state;
    let j = i.after(Call::Poll);
    reconstruct::lemma_polled(s);
    if s.wants_bytes() {
        let (stream, demand) = s.stream.demanded(s.wanted() as nat);
        if let chunk_stream::DemandView::Chunk(chunk) = demand {
            assert(stream.produced.len() <= stream.target_size);
            lemma_takes(i, ReconstructionState { stream, ..s }, chunk, j);
        } else {
            assert(j.handed == i.handed);
        }
    } else {
        assert(s.taken.take(s.taken.len() as int) =~= s.taken);
        match s.stage {
            Stage::PrefixWrite => {
                assert(j.handed =~= s.taken);
                assert(j.handed.skip(0) =~= s.taken);
            },
            Stage::TailFlush => {
                assert(j.handed =~= i.handed);
                assert(s.taken.len() <= s.stream.target_size);
                assert(j.handed.skip(s.taken.len() as int) =~= Seq::<u8>::empty());
            },
            _ => {
                assert(j.handed =~= i.handed);
            },
        }
    }
}

/// One call of a driver keeps what holds of an installation.
proof fn lemma_after(i: Installation, call: Call)
    requires
        i.wf(),
        i.awaits(call),
    ensures
        i.after(call).wf(),
        i.after(call).in_place(),
{
    let s = i.state;
    law_calls_keep_the_invariant(s, call);
    match call {
        Call::Poll => {
            lemma_poll(i);
        },
        Call::BaseRead(data) => {
            chunk_stream::lemma_copied(s.stream, data);
            let stream = s.stream.with_base(data);
            assert(stream.produced.len() <= stream.target_size);
            lemma_takes(i, ReconstructionState { stream, ..s }, data, i.after(call));
        },
        _ => {
            assert(i.after(call).handed == i.handed);
        },
    }
}

/// What holds of an installation holds all along.
proof fn lemma_run(start: Installation, calls: Seq<Call>)
    requires
        start.wf(),
        start.in_place(),
        start.driven_by(calls),
    ensures
        start.run(calls).wf(),
        start.run(calls).in_place(),
    decreases calls.len(),
{
    if calls.len() > 0 {
        lemma_run(start, calls.drop_last());
        lemma_after(start.run(calls.drop_last()), calls.last());
    }
}

/// An installation begins as it should.
proof fn lemma_begin(header: DeltaHeader, base_size: u32, prefix_size: nat)
    requires
        prefix_size > 0,
    ensures
        Installation::begin(header, base_size, prefix_size).wf(),
        Installation::begin(header, base_size, prefix_size).in_place(),
{
    let i = Installation::begin(header, base_size, prefix_size);
    chunk_stream::lemma_fresh(header.patch_payload_size, base_size, header.target_size);
    assert(i.handed =~= i.state.taken.take(0));
}

/// At every point of every run: what has been handed out is the image from its first byte on,
/// in order, nothing twice and nothing left out; the bytes that are to be written or relocated
/// now go right behind those before them; and there is one block for all of it, allocated
/// before anything was handed out.
pub proof fn law_every_byte_is_handed_out_once(
    header: DeltaHeader,
    base_size: u32,
    prefix_size: nat,
    calls: Seq<Call>,
)
    requires
        prefix_size > 0,
        Installation::begin(header, base_size, prefix_size).driven_by(calls),
    ensures
        ({
            let i = Installation::begin(header, base_size, prefix_size).run(calls);
            &&& i.wf()
            &&& i.in_place()
            &&& i.handed.len() > 0 ==> i.blocks == 1
            &&& i.blocks <= 1
        }),
{
    let start = Installation::begin(header, base_size, prefix_size);
    lemma_begin(header, base_size, prefix_size);
    lemma_run(start, calls);
    lemma_block_first(start, calls);
}

/// Nothing is handed out before there is a block.
proof fn lemma_block_first(start: Installation, calls: Seq<Call>)
    requires
        start.wf(),
        start.in_place(),
        start.handed.len() > 0 ==> start.state.allocated,
        start.driven_by(calls),
    ensures
        start.run(calls).handed.len() > 0 ==> start.run(calls).state.allocated,
    decreases calls.len(),
{
    if calls.len() > 0 {
        let before = start.run(calls.drop_last());
        lemma_block_first(start, calls.drop_last());
        lemma_run(start, calls.drop_last());
        lemma_after(before, calls.last());
        if calls.last() is Poll {
            reconstruct::lemma_polled(before.state);
        }
    }
}

/// When the relocation is to be finished, the data of the actions that are marked as
/// checksummed is everything that has been taken of the image: all that comes before its
/// trailer.
pub proof fn law_checksum_covers_everything_before_the_trailer(
    header: DeltaHeader,
    base_size: u32,
    prefix_size: nat,
    calls: Seq<Call>,
)
    requires
        prefix_size > 0,
        Installation::begin(header, base_size, prefix_size).driven_by(calls),
        Installation::begin(header, base_size, prefix_size).run(calls).state.stage is RelocationEnd,
    ensures
        ({
            let i = Installation::begin(header, base_size, prefix_size).run(calls);
            &&& i.handed == i.state.taken
            &&& i.state.taken.len() == i.state.trailer_start()
        }),
{
    law_every_byte_is_handed_out_once(header, base_size, prefix_size, calls);
}

/// One call that is supplied from `patch` and `base` leaves a stream that may come from them.
proof fn lemma_supplied(i: Installation, call: Call, patch: Seq<u8>, base: Seq<u8>)
    requires
        i.wf(),
        i.awaits(call),
        i.is_supplied(call, patch, base),
        i.state.stream.may_come_from(patch, base),
    ensures
        i.after(call).state.stream.may_come_from(patch, base),
{
    let s = i.state.stream;
    let t = i.after(call).state.stream;
    match call {
        Call::Poll => {
            reconstruct::lemma_polled(i.state);
        },
        Call::FragmentArrived(data) => {
            assert(t.delivered =~= patch.take(t.delivered.len() as int));
        },
        Call::BaseRead(data) => {
            assert forall|k: int| 0 <= k < t.reads.len() implies {
                let (src, data) = #[trigger] t.reads[k];
                src + data.len() <= base.len() && data == base.subrange(
                    src as int,
                    src + data.len(),
                )
            } by {
                if k < s.reads.len() {
                    assert(t.reads[k] == s.reads[k]);
                }
            }
        },
        _ => {},
    }
}

/// A run whose fragments come from a patch, and whose reads from a base, is one that may come
/// from them: so it stays from the first call to the last.
pub proof fn law_supply_is_remembered(
    header: DeltaHeader,
    prefix_size: nat,
    calls: Seq<Call>,
    patch: Seq<u8>,
    base: Seq<u8>,
)
    requires
        prefix_size > 0,
        patch.len() == header.patch_payload_size,
        base.len() <= u32::MAX,
        Installation::begin(header, base.len() as u32, prefix_size).driven_by(calls),
        Installation::begin(header, base.len() as u32, prefix_size).supplied_by(
            calls,
            patch,
            base,
        ),
    ensures
        Installation::begin(header, base.len() as u32, prefix_size).run(
            calls,
        ).state.stream.may_come_from(patch, base),
    decreases calls.len(),
{
    let start = Installation::begin(header, base.len() as u32, prefix_size);
    if calls.len() == 0 {
        assert(patch.take(0) =~= Seq::<u8>::empty());
    } else {
        law_supply_is_remembered(header, prefix_size, calls.drop_last(), patch, base);
        lemma_begin(header, base.len() as u32, prefix_size);
        lemma_run(start, calls.drop_last());
        lemma_supplied(start.run(calls.drop_last()), calls.last(), patch, base);
    }
}

/// A run never changes what the delta header declares.
proof fn lemma_declared(
    header: DeltaHeader,
    base_size: u32,
    prefix_size: nat,
    calls: Seq<Call>,
)
    ensures
        ({
            let s = Installation::begin(header, base_size, prefix_size).run(calls).state;
            &&& s.target_size == header.target_size
            &&& s.expected_crc == header.reconstructed_crc32
            &&& s.prefix_size == prefix_size
        }),
    decreases calls.len(),
{
    if calls.len() > 0 {
        lemma_declared(header, base_size, prefix_size, calls.drop_last());
    }
}

/// A run that has come to the writing of the new trailer, or further, has made the image that
/// the patch makes of the base, of the declared size and CRC; and it has handed out all of the
/// image but its trailer.
pub proof fn law_run_installs_what_the_patch_makes(
    header: DeltaHeader,
    prefix_size: nat,
    calls: Seq<Call>,
    patch: Seq<u8>,
    base: Seq<u8>,
)
    requires
        prefix_size > 0,
        patch.len() == header.patch_payload_size,
        base.len() <= u32::MAX,
        Installation::begin(header, base.len() as u32, prefix_size).driven_by(calls),
        Installation::begin(header, base.len() as u32, prefix_size).supplied_by(
            calls,
            patch,
            base,
        ),
        ({
            let stage = Installation::begin(header, base.len() as u32, prefix_size).run(
                calls,
            ).state.stage;
            stage is TrailerWrite || stage is Validation || stage is Done
        }),
    ensures
        ({
            let i = Installation::begin(header, base.len() as u32, prefix_size).run(calls);
            let image = i.state.taken;
            &&& patch::apply(patch, base, header.target_size) == Ok::<Seq<u8>, DecodeError>(image)
            &&& image.len() == header.target_size
            &&& crc::crc32_of(image) == header.reconstructed_crc32
            &&& i.handed == image.take(image.len() - TRAILER_SIZE)
            &&& i.blocks == 1
        }),
{
    let start = Installation::begin(header, base.len() as u32, prefix_size);
    let i = start.run(calls);
    law_supply_is_remembered(header, prefix_size, calls, patch, base);
    law_every_byte_is_handed_out_once(header, base.len() as u32, prefix_size, calls);
    lemma_declared(header, base.len() as u32, prefix_size, calls);
    reconstruct::law_installed_image_is_right(i.state, patch, base);
}

// ---------------------------------------------------------------------------
//  A right patch
// ---------------------------------------------------------------------------

impl ReconstructionState {
    /// Whether the reconstruction has not failed, and all that it knows is in keeping with its
    /// ending in the image `new`.
    pub open spec fn heads_for(self, new: Seq<u8>) -> bool {
        &&& new.len() == self.target_size
        &&& crc::crc32_of(new) == self.expected_crc
        &&& self.prefix_size <= new.len()
        &&& match self.stage {
            Stage::Prefix | Stage::PrefixReady => true,
            Stage::Allocation
            | Stage::PrefixWrite
            | Stage::Tail
            | Stage::TailFlush
            | Stage::Examination => self.info.payload_offset <= new.len(),
            Stage::Payload | Stage::RelocationEnd => self.trailer_start() + TRAILER_SIZE
                == new.len(),
            Stage::Trailer | Stage::Drain => {
                &&& self.trailer_start() + TRAILER_SIZE == new.len()
                &&& le::u32_at(new, self.trailer_start()) == self.validation_checksum
            },
            Stage::TrailerCheck => self.taken == new && self.trailer_is_right(),
            Stage::TrailerWrite | Stage::Validation | Stage::Done => true,
            Stage::Failed(_) => false,
        }
    }

    /// Whether the call reports what is to be expected of the image `new`, and no failure.
    pub open spec fn reports_well(self, call: Call, new: Seq<u8>) -> bool {
        match call {
            Call::PrefixParsed(info) => info.needed_flash == new.len() && info.payload_offset
                <= new.len(),
            Call::HeaderExamined(payload_size) => self.with_header(payload_size).trailer_start()
                + TRAILER_SIZE == new.len(),
            Call::RelocationFinished { validation_checksum, .. } => validation_checksum
                == le::u32_at(new, self.trailer_start()),
            Call::Validated(valid) => valid,
            Call::Failed(_) => false,
            _ => true,
        }
    }
}

impl Installation {
    /// Whether all the calls report what is to be expected of the image `new`.
    pub open spec fn goes_well(self, calls: Seq<Call>, new: Seq<u8>) -> bool
        decreases calls.len(),
    {
        calls.len() > 0 ==> {
            &&& self.goes_well(calls.drop_last(), new)
            &&& self.run(calls.drop_last()).state.reports_well(calls.last(), new)
        }
    }
}

/// One call that reports well does not lead away from the image.
proof fn lemma_heads_on(
    i: Installation,
    call: Call,
    patch: Seq<u8>,
    base: Seq<u8>,
    new: Seq<u8>,
)
    requires
        i.wf(),
        i.awaits(call),
        i.is_supplied(call, patch, base),
        i.state.stream.may_come_from(patch, base),
        patch::apply(patch, base, i.state.target_size) == Ok::<Seq<u8>, DecodeError>(new),
        i.state.heads_for(new),
        i.state.reports_well(call, new),
    ensures
        i.after(call).state.heads_for(new),
{
    let s = i.state;
    law_calls_keep_the_invariant(s, call);
    lemma_supplied(i, call, patch, base);
    if call is Poll && s.wants_bytes() {
        reconstruct::lemma_polled(s);
        let t = s.polled().0;
        assert(s.streaming());
        assert(t.stream.image(patch, base) == Ok::<Seq<u8>, DecodeError>(new));
        match s.stream.demanded(s.wanted() as nat).1 {
            chunk_stream::DemandView::Chunk(chunk) => {
                // No stream hands out more than the declared size.
                assert(t.stream.produced.len() <= t.stream.target_size);
            },
            chunk_stream::DemandView::End => {
                assert(new == s.taken);
            },
            _ => {},
        }
    } else if let Call::BaseRead(data) = call {
        chunk_stream::lemma_copied(s.stream, data);
        let t = s.stream.with_base(data);
        assert(t.produced.len() <= t.target_size);
    }
}

/// A right patch is not refused: as long as the patch makes the image of the base that the
/// delta header describes, and everything outside goes as it should for that image, no run
/// leads to failure.
pub proof fn law_right_patch_is_not_refused(
    header: DeltaHeader,
    prefix_size: nat,
    calls: Seq<Call>,
    patch: Seq<u8>,
    base: Seq<u8>,
    new: Seq<u8>,
)
    requires
        0 < prefix_size <= new.len(),
        patch.len() == header.patch_payload_size,
        base.len() <= u32::MAX,
        patch::apply(patch, base, header.target_size) == Ok::<Seq<u8>, DecodeError>(new),
        new.len() == header.target_size,
        crc::crc32_of(new) == header.reconstructed_crc32,
        Installation::begin(header, base.len() as u32, prefix_size).driven_by(calls),
        Installation::begin(header, base.len() as u32, prefix_size).supplied_by(
            calls,
            patch,
            base,
        ),
        Installation::begin(header, base.len() as u32, prefix_size).goes_well(calls, new),
    ensures
        ({
            let s = Installation::begin(header, base.len() as u32, prefix_size).run(calls).state;
            s.heads_for(new) && !(s.stage is Failed)
        }),
    decreases calls.len(),
{
    let start = Installation::begin(header, base.len() as u32, prefix_size);
    if calls.len() > 0 {
        let shorter = calls.drop_last();
        law_right_patch_is_not_refused(header, prefix_size, shorter, patch, base, new);
        law_supply_is_remembered(header, prefix_size, shorter, patch, base);
        lemma_begin(header, base.len() as u32, prefix_size);
        lemma_run(start, shorter);
        lemma_declared(header, base.len() as u32, prefix_size, shorter);
        lemma_heads_on(start.run(shorter), calls.last(), patch, base, new);
    }
}

} // verus!

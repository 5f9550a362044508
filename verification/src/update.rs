//! The course of a delta update on the device.

use vstd::prelude::*;

use crate::chunk_stream::StreamState;
use crate::delta_gen;
use crate::delta_gen::BaseFacts;
use crate::encoder;
use crate::format::DeltaHeader;
use crate::installation;
use crate::installation::{Call, Installation};
use crate::message::MessageError;
use crate::protocol;
use crate::protocol::FragmenterState;
use crate::ranges;
use crate::reconstruct::TRAILER_SIZE;
use crate::roundtrip;

verus! {

/// The phases of a delta update, in order.
#[derive(Debug, Clone, Copy, PartialEq, Eq, Structural)]
pub enum Phase {
    /// Pull and validate the delta header.
    HeaderPull,
    /// Locate the base component in flash by id and version.
    BaseSearch,
    /// Masked base CRC check.  Tells a wrong base from a corrupt patch and fails fast;
    /// correctness does not depend on it.
    BaseVerification,
    /// Reconstruct the image into its final block.
    Reconstruction,
    /// Report success to the host.  This comes before the component is loaded, since loading
    /// can preempt the update.
    Report,
    /// Load the component.
    Load,
}

/// What follows a phase.
#[derive(Debug, Clone, Copy, PartialEq, Eq)]
pub enum Course {
    /// The next phase.
    Next(Phase),
    /// The update is over.
    Over(Result<(), MessageError>),
}

impl Phase {
    /// What follows this phase: a failed phase ends the update with its error, except that a
    /// component that cannot be loaded is none the less installed.
    pub open spec fn followed_by(self, outcome: Result<(), MessageError>) -> Course {
        match (self, outcome) {
            (Phase::Load, _) => Course::Over(Ok(())),
            (_, Err(e)) => Course::Over(Err(e)),
            (Phase::HeaderPull, Ok(_)) => Course::Next(Phase::BaseSearch),
            (Phase::BaseSearch, Ok(_)) => Course::Next(Phase::BaseVerification),
            (Phase::BaseVerification, Ok(_)) => Course::Next(Phase::Reconstruction),
            (Phase::Reconstruction, Ok(_)) => Course::Next(Phase::Report),
            (Phase::Report, Ok(_)) => Course::Next(Phase::Load),
        }
    }

    /// What follows this phase.
    pub fn then_comes(self, outcome: Result<(), MessageError>) -> (c: Course)
        ensures
            c == self.followed_by(outcome),
    {
        match self {
            Phase::Load => Course::Over(Ok(())),
            _ => match outcome {
                Err(e) => Course::Over(Err(e)),
                Ok(_) => match self {
                    Phase::HeaderPull => Course::Next(Phase::BaseSearch),
                    Phase::BaseSearch => Course::Next(Phase::BaseVerification),
                    Phase::BaseVerification => Course::Next(Phase::Reconstruction),
                    Phase::Reconstruction => Course::Next(Phase::Report),
                    _ => Course::Next(Phase::Load),
                },
            },
        }
    }

    /// The marker that brackets this phase.
    pub fn marker(self) -> (phase: Option<u8>)
        ensures
            phase == (match self {
                Phase::HeaderPull => Some(0u8),
                Phase::BaseSearch => Some(1u8),
                Phase::BaseVerification => Some(2u8),
                Phase::Reconstruction => Some(3u8),
                Phase::Report => None,
                Phase::Load => Some(4u8),
            }),
    {
        match self {
            Phase::HeaderPull => Some(0),
            Phase::BaseSearch => Some(1),
            Phase::BaseVerification => Some(2),
            Phase::Reconstruction => Some(3),
            Phase::Report => None,
            Phase::Load => Some(4),
        }
    }
}

/// A component is loaded only after success has been reported, and success is reported only
/// after a reconstruction that succeeded.
pub proof fn law_success_is_reported_before_loading(
    phase: Phase,
    outcome: Result<(), MessageError>,
)
    ensures
        phase.followed_by(outcome) == Course::Next(Phase::Load) ==> phase is Report && outcome is Ok,
        phase.followed_by(outcome) == Course::Next(Phase::Report) ==> phase is Reconstruction
            && outcome is Ok,
{
}

/// Whether `header` and `patch` were built for an update from `old` to `new`, and all sizes fit
/// their fields.
pub open spec fn built_for(
    header: DeltaHeader,
    patch: Seq<u8>,
    old: Seq<u8>,
    facts: BaseFacts,
    new: Seq<u8>,
) -> bool {
    let forbidden = delta_gen::forbidden_ranges(facts);
    &&& old.len() <= usize::MAX
    &&& old.len() <= u32::MAX
    &&& new.len() <= usize::MAX
    &&& new.len() <= u32::MAX
    &&& facts.trailer_start + 4 <= usize::MAX
    &&& ranges::first_past(
        delta_gen::unreliable_words(facts.relocations@, facts.trailer_start),
        old.len(),
    ) is None
    &&& patch == encoder::patch_of(old, new, forbidden)
    &&& patch.len() <= u32::MAX
    &&& delta_gen::is_header_for(header, old, new, facts, forbidden, patch)
}

/// From end to end: a device that holds `old`, with anything in place of the words that
/// relocation and installation rewrite, and that is sent the patch and the header that were
/// built for `old` and `new`, installs `new`.  Whatever run of calls has led to the end, the
/// image is `new`, byte for byte; all of it but the trailer has been handed out to be written
/// or relocated, in order and once, into one block.
pub proof fn law_device_installs_the_new_image(
    header: DeltaHeader,
    patch: Seq<u8>,
    old: Seq<u8>,
    facts: BaseFacts,
    new: Seq<u8>,
    base: Seq<u8>,
    prefix_size: nat,
    calls: Seq<Call>,
)
    requires
        built_for(header, patch, old, facts, new),
        roundtrip::agrees_outside(base, old, delta_gen::forbidden_ranges(facts)),
        prefix_size > 0,
        Installation::begin(header, base.len() as u32, prefix_size).driven_by(calls),
        Installation::begin(header, base.len() as u32, prefix_size).supplied_by(
            calls,
            patch,
            base,
        ),
        Installation::begin(header, base.len() as u32, prefix_size).run(calls).state.stage is Done,
    ensures
        ({
            let i = Installation::begin(header, base.len() as u32, prefix_size).run(calls);
            &&& i.state.taken == new
            &&& i.handed == new.take(new.len() - TRAILER_SIZE)
            &&& i.blocks == 1
        }),
{
    delta_gen::lemma_forbidden_sorted(facts, old.len());
    roundtrip::law_faithful(
        old,
        new,
        delta_gen::forbidden_ranges(facts),
        base,
        header.target_size,
    );
    installation::law_run_installs_what_the_patch_makes(header, prefix_size, calls, patch, base);
}

/// Such a device does not refuse the update, as long as everything outside goes as it should
/// for `new`.
pub proof fn law_device_does_not_refuse_the_update(
    header: DeltaHeader,
    patch: Seq<u8>,
    old: Seq<u8>,
    facts: BaseFacts,
    new: Seq<u8>,
    base: Seq<u8>,
    prefix_size: nat,
    calls: Seq<Call>,
)
    requires
        built_for(header, patch, old, facts, new),
        roundtrip::agrees_outside(base, old, delta_gen::forbidden_ranges(facts)),
        0 < prefix_size <= new.len(),
        Installation::begin(header, base.len() as u32, prefix_size).driven_by(calls),
        Installation::begin(header, base.len() as u32, prefix_size).supplied_by(
            calls,
            patch,
            base,
        ),
        Installation::begin(header, base.len() as u32, prefix_size).goes_well(calls, new),
    ensures
        !(Installation::begin(header, base.len() as u32, prefix_size).run(
            calls,
        ).state.stage is Failed),
{
    delta_gen::lemma_forbidden_sorted(facts, old.len());
    roundtrip::law_faithful(
        old,
        new,
        delta_gen::forbidden_ranges(facts),
        base,
        header.target_size,
    );
    installation::law_right_patch_is_not_refused(header, prefix_size, calls, patch, base, new);
}

/// The fragments that the host sends are those that the device asks for: as long as the host
/// has handed out as much of the patch as the device has received, the next fragment has the
/// length that the device expects, and takes both on by as much.
pub proof fn law_fragments_are_what_was_asked_for(host: FragmenterState, device: StreamState)
    requires
        host.data.len() == device.patch_size,
        host.pos == device.delivered.len(),
        device.delivered == host.data.take(host.pos as int),
        device.delivered.len() + device.reader.remaining == device.patch_size,
        device.reader.remaining > 0,
    ensures
        host.next().0 matches Some(fragment) && fragment.len() == device.reader.next_fragment()
            && device.delivered + fragment == host.data.take(host.next().1.pos as int),
{
    let fragment = protocol::fragment_at(host.data, host.pos as int);
    assert(device.delivered + fragment =~= host.data.take((host.pos + fragment.len()) as int));
}

/// The place of a phase in the course of an update.
pub open spec fn place_of(phase: Phase) -> int {
    match phase {
        Phase::HeaderPull => 0,
        Phase::BaseSearch => 1,
        Phase::BaseVerification => 2,
        Phase::Reconstruction => 3,
        Phase::Report => 4,
        Phase::Load => 5,
    }
}

/// The course of an update: what succeeds is followed by the next phase, without any left out or
/// gone through twice; what fails before the loading ends the update with its own error; and from
/// the loading on it has succeeded, whatever comes of that.
pub proof fn law_course(phase: Phase, outcome: Result<(), MessageError>)
    ensures
        match phase.followed_by(outcome) {
            Course::Next(next) => outcome is Ok && place_of(next) == place_of(phase) + 1,
            Course::Over(Ok(_)) => place_of(phase) == 5,
            Course::Over(Err(e)) => place_of(phase) < 5 && outcome == Err::<(), MessageError>(e),
        },
{
}

} // verus!

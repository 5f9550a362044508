//! The host's side of an update: laying out a component image and answering the device.

use vstd::prelude::*;

use crate::bytes::{copy_of, part_of};
use crate::crc;
use crate::delta_gen;
use crate::delta_gen::{FixedHeader, IS_DELTA_BIT};
use crate::format::{DeltaHeader, DELTA_HEADER_SIZE};
use crate::le;
use crate::protocol;
use crate::protocol::{
    Fragmenter,
    FragmenterState,
    SEND_COMPONENT_FIXED_HEADER,
    SEND_COMPONENT_PAYLOAD,
    SEND_COMPONENT_TRAILER,
    SEND_COMPONENT_VARIABLE_HEADER,
    SEND_DELTA_HEADER,
    SEND_NEXT_FRAGMENT,
    SUCCESS,
};

verus! {

// ---------------------------------------------------------------------------
//  Layout of images
// ---------------------------------------------------------------------------

/// Whether the component flags of an image have the delta flag set.
///
/// The raw flag word is read, and not a parsed set of flags: a delta image carries a CRC-32b
/// trailer, so the checks for a full image do not hold of it.
pub fn is_delta_image(image: &[u8], flags_offset: usize) -> (b: bool)
    requires
        flags_offset + 2 <= image@.len(),
    ensures
        b == (le::u16_at(image@, flags_offset as int) & IS_DELTA_BIT != 0),
        b == (image@[flags_offset as int] / 2 % 2 == 1),
{
    proof {
        law_delta_flag_is_bit_one(image@, flags_offset as int);
    }
    le::u16_le(image, flags_offset) & IS_DELTA_BIT != 0
}

/// The delta flag is bit 1 of the first of the two flag bytes; no other bit matters.
pub proof fn law_delta_flag_is_bit_one(image: Seq<u8>, flags_offset: int)
    ensures
        le::u16_at(image, flags_offset) & IS_DELTA_BIT != 0 <==> image[flags_offset] / 2 % 2 == 1,
{
    let flags = le::u16_at(image, flags_offset);
    let (low, high) = (image[flags_offset], image[flags_offset + 1]);
    assert(flags == low + 0x100 * high);
    assert(flags & IS_DELTA_BIT != 0 <==> flags / 2 % 2 == 1) by (bit_vector);
}

/// Why a delta image cannot be taken apart.
#[derive(Debug, Clone, Copy, PartialEq, Eq, Structural)]
pub enum LayoutError {
    /// No room for fixed header, delta header and trailer.
    TooShort,
    /// The declared patch overruns the image.
    PatchOverruns { patch_size: u32, len: usize },
}

/// The parts of a delta image.
pub struct DeltaParts {
    pub fixed_header: Vec<u8>,
    pub delta_header: Vec<u8>,
    pub patch: Vec<u8>,
    pub trailer: Vec<u8>,
}

/// The declared size of the patch in a delta image whose fixed header has `fixed_len` bytes.
pub open spec fn declared_patch_size(image: Seq<u8>, fixed_len: nat) -> u32 {
    le::u32_at(image, fixed_len as int + 24)
}

/// The parts of a delta image, over mathematical sequences.
pub struct DeltaPartsView {
    pub fixed_header: Seq<u8>,
    pub delta_header: Seq<u8>,
    pub patch: Seq<u8>,
    pub trailer: Seq<u8>,
}

/// The parts of a delta image whose fixed header has `fixed_len` bytes, or why it cannot be taken
/// apart.
pub open spec fn parts_of(image: Seq<u8>, fixed_len: nat) -> Result<DeltaPartsView, LayoutError> {
    let len = image.len() as int;
    let patch_start = fixed_len + DELTA_HEADER_SIZE;
    let patch_size = declared_patch_size(image, fixed_len);
    if len < patch_start + 4 {
        Err(LayoutError::TooShort)
    } else if patch_start + patch_size + 4 > len {
        Err(LayoutError::PatchOverruns { patch_size, len: len as usize })
    } else {
        Ok(
            DeltaPartsView {
                fixed_header: image.subrange(0, fixed_len as int),
                delta_header: image.subrange(fixed_len as int, patch_start),
                patch: image.subrange(patch_start, patch_start + patch_size),
                trailer: image.subrange(len - 4, len),
            },
        )
    }
}

/// Take a delta image apart: `[fixed header][delta header][patch] ... [4-byte trailer]`.
pub fn split_delta(image: &[u8], fixed_len: usize) -> (r: Result<DeltaParts, LayoutError>)
    ensures
        match parts_of(image@, fixed_len as nat) {
            Err(e) => r == Err::<DeltaParts, LayoutError>(e),
            Ok(parts) => r matches Ok(p) && p.fixed_header@ == parts.fixed_header
                && p.delta_header@ == parts.delta_header && p.patch@ == parts.patch && p.trailer@
                == parts.trailer,
        },
        ({
            let len = image@.len();
            let patch_start = fixed_len + DELTA_HEADER_SIZE;
            let patch_size = declared_patch_size(image@, fixed_len as nat);
            if len < patch_start + 4 {
                r == Err::<DeltaParts, LayoutError>(LayoutError::TooShort)
            } else if patch_start + patch_size + 4 > len {
                r == Err::<DeltaParts, LayoutError>(
                    LayoutError::PatchOverruns { patch_size, len: len as usize },
                )
            } else {
                r matches Ok(p) && {
                    &&& p.fixed_header@ == image@.subrange(0, fixed_len as int)
                    &&& p.delta_header@ == image@.subrange(fixed_len as int, patch_start)
                    &&& p.patch@ == image@.subrange(patch_start, patch_start + patch_size)
                    &&& p.trailer@ == image@.subrange(len - 4, len as int)
                }
            }
        }),
{
    let len: usize = image.len();
    if len < fixed_len || len - fixed_len < DELTA_HEADER_SIZE + 4 {
        return Err(LayoutError::TooShort);
    }
    let patch_start: usize = fixed_len + DELTA_HEADER_SIZE;
    let patch_size: u32 = le::u32_le(image, fixed_len + 24);
    if patch_size as usize > len - patch_start - 4 {
        return Err(LayoutError::PatchOverruns { patch_size, len });
    }
    let patch_end: usize = patch_start + patch_size as usize;
    Ok(
        DeltaParts {
            fixed_header: part_of(image, 0, fixed_len),
            delta_header: part_of(image, fixed_len, patch_start),
            patch: part_of(image, patch_start, patch_end),
            trailer: part_of(image, len - 4, len),
        },
    )
}

/// Taking apart an assembled delta image gives back what it was assembled from, and the image
/// is recognised as a delta image.
pub proof fn law_split_assembled(
    new: Seq<u8>,
    fixed: FixedHeader,
    header: DeltaHeader,
    patch: Seq<u8>,
)
    requires
        fixed.wf(),
        fixed.len <= new.len(),
        header.patch_payload_size == patch.len(),
    ensures
        ({
            let image = delta_gen::delta_image(new, fixed, header, patch);
            let body = delta_gen::delta_body(new, fixed, header, patch);
            let patch_start = fixed.len + DELTA_HEADER_SIZE;
            &&& image.len() == patch_start + patch.len() + 4
            &&& declared_patch_size(image, fixed.len as nat) == patch.len()
            &&& image.subrange(0, fixed.len as int) == delta_gen::flagged_header(new, fixed)
            &&& image.subrange(fixed.len as int, patch_start) == header.wire()
            &&& image.subrange(patch_start, patch_start + patch.len()) == patch
            &&& image.subrange(image.len() - 4, image.len() as int) == le::u32_bytes(
                crc::crc32_of(body),
            )
            &&& le::u16_at(image, fixed.flags_offset as int) & IS_DELTA_BIT != 0
        }),
{
    let image = delta_gen::delta_image(new, fixed, header, patch);
    let body = delta_gen::delta_body(new, fixed, header, patch);
    let patch_start = fixed.len + DELTA_HEADER_SIZE;
    let wire = header.wire();
    assert(wire.len() == DELTA_HEADER_SIZE);
    assert(image.subrange(0, fixed.len as int) =~= delta_gen::flagged_header(new, fixed));
    assert(image.subrange(fixed.len as int, patch_start) =~= wire);
    assert(image.subrange(patch_start, patch_start + patch.len()) =~= patch);
    assert(image.subrange(image.len() - 4, image.len() as int) =~= le::u32_bytes(
        crc::crc32_of(body),
    ));
    let size_at = fixed.len + 24;
    assert(image.subrange(size_at, size_at + 4) =~= le::u32_bytes(header.patch_payload_size));
    le::lemma_u32_write_read(image, size_at, header.patch_payload_size);
    let flags = fixed.flags | IS_DELTA_BIT;
    let at = fixed.flags_offset as int;
    assert(image.subrange(at, at + 2) =~= le::u16_bytes(flags));
    le::lemma_u16_write_read(image, at, flags);
    let given = fixed.flags;
    assert((given | IS_DELTA_BIT) & IS_DELTA_BIT != 0) by (bit_vector);
}

/// The records of a variable header, as they stand in the image.
pub struct VariableHeader {
    pub regions: Vec<Vec<u8>>,
    pub interrupts: Vec<Vec<u8>>,
    pub relocations: Vec<Vec<u8>>,
    pub dependencies: Vec<Vec<u8>>,
    pub padding_bytes: usize,
}

/// The bytes of the records, one after the other.
pub open spec fn joined(records: Seq<Vec<u8>>) -> Seq<u8>
    decreases records.len(),
{
    if records.len() == 0 {
        Seq::empty()
    } else {
        joined(records.drop_last()) + records.last()@
    }
}

impl VariableHeader {
    /// The bytes of the variable header: regions, interrupts, relocations, dependencies, and
    /// the padding.
    pub open spec fn wire(self) -> Seq<u8> {
        joined(self.regions@) + joined(self.interrupts@) + joined(self.relocations@) + joined(
            self.dependencies@,
        ) + Seq::new(self.padding_bytes as nat, |i: int| 0xFFu8)
    }
}

fn append_records(out: &mut Vec<u8>, records: &[Vec<u8>])
    ensures
        final(out)@ == old(out)@ + joined(records@),
{
    let ghost before = out@;
    let mut i: usize = 0;
    while i < records.len()
        invariant
            i <= records@.len(),
            out@ == before + joined(records@.take(i as int)),
        decreases records@.len() - i,
    {
        assert(records@.take(i + 1).drop_last() =~= records@.take(i as int));
        let ghost prior = out@;
        out.extend_from_slice(records[i].as_slice());
        assert(out@ =~= prior + records@[i as int]@);
        assert(out@ =~= before + joined(records@.take(i + 1)));
        i = i + 1;
    }
    assert(records@.take(i as int) =~= records@);
}

/// The bytes of the variable header, in the order in which they are sent.
pub fn extract_variable_header(header: &VariableHeader) -> (buffer: Vec<u8>)
    ensures
        buffer@ == header.wire(),
{
    let mut buffer: Vec<u8> = Vec::new();
    append_records(&mut buffer, &header.regions);
    append_records(&mut buffer, &header.interrupts);
    append_records(&mut buffer, &header.relocations);
    append_records(&mut buffer, &header.dependencies);
    let ghost records = buffer@;
    let mut i: usize = 0;
    while i < header.padding_bytes
        invariant
            i <= header.padding_bytes,
            buffer@ == records + Seq::new(i as nat, |k: int| 0xFFu8),
        decreases header.padding_bytes - i,
    {
        buffer.push(0xFF);
        assert(buffer@ =~= records + Seq::new((i + 1) as nat, |k: int| 0xFFu8));
        i = i + 1;
    }
    assert(buffer@ =~= header.wire());
    buffer
}

/// The number of bytes of all the records together.
pub open spec fn size_of_all(records: Seq<Vec<u8>>) -> nat
    decreases records.len(),
{
    if records.len() == 0 {
        0
    } else {
        records[0]@.len() + size_of_all(records.drop_first())
    }
}

/// Whether `bytes`, from `from` on, holds the records one after the other: each behind all that
/// come before it.
pub open spec fn holds_records(bytes: Seq<u8>, from: nat, records: Seq<Vec<u8>>) -> bool {
    &&& from + size_of_all(records) <= bytes.len()
    &&& forall|k: int|
        0 <= k < records.len() ==> {
            let at = from + size_of_all(records.take(k));
            at + records[k]@.len() <= bytes.len() && bytes.subrange(
                at as int,
                (at + records[k]@.len()) as int,
            ) == (#[trigger] records[k])@
        }
}

/// The size of records with one more behind them.
proof fn lemma_size_of_all(records: Seq<Vec<u8>>)
    requires
        records.len() > 0,
    ensures
        size_of_all(records) == size_of_all(records.drop_last()) + records.last()@.len(),
    decreases records.len(),
{
    if records.len() == 1 {
        assert(records.drop_first() =~= Seq::<Vec<u8>>::empty());
        assert(records.drop_last() =~= Seq::<Vec<u8>>::empty());
    } else {
        lemma_size_of_all(records.drop_first());
        assert(records.drop_first().drop_last() =~= records.drop_last().drop_first());
    }
}

/// Records joined, with something in front of them and something behind, are held there.
proof fn lemma_joined(front: Seq<u8>, records: Seq<Vec<u8>>, back: Seq<u8>)
    ensures
        joined(records).len() == size_of_all(records),
        holds_records(front + joined(records) + back, front.len(), records),
    decreases records.len(),
{
    let bytes = front + joined(records) + back;
    if records.len() > 0 {
        let shorter = records.drop_last();
        let last = records.last()@;
        lemma_size_of_all(records);
        lemma_joined(front, shorter, last + back);
        assert(bytes =~= front + joined(shorter) + (last + back));
        assert forall|k: int| 0 <= k < records.len() implies {
            let at = front.len() + size_of_all(records.take(k));
            at + records[k]@.len() <= bytes.len() && bytes.subrange(
                at as int,
                (at + records[k]@.len()) as int,
            ) == (#[trigger] records[k])@
        } by {
            if k < shorter.len() {
                assert(shorter[k] == records[k]);
                assert(shorter.take(k) =~= records.take(k));
            } else {
                assert(records.take(k) =~= shorter);
                let at = (front.len() + joined(shorter).len()) as int;
                assert(bytes.subrange(at, at + last.len()) =~= last);
            }
        }
    }
}

/// The variable header that is sent is the part of the image behind its fixed header: all the
/// regions, behind them all the interrupts, then all the relocations, then all the dependencies,
/// each record where the sizes of those before it put it, and then the padding, with nothing
/// behind it.
pub proof fn law_variable_header_is_in_order(header: VariableHeader)
    ensures
        ({
            let bytes = header.wire();
            let interrupts = size_of_all(header.regions@);
            let relocations = interrupts + size_of_all(header.interrupts@);
            let dependencies = relocations + size_of_all(header.relocations@);
            let padding = dependencies + size_of_all(header.dependencies@);
            &&& holds_records(bytes, 0, header.regions@)
            &&& holds_records(bytes, interrupts, header.interrupts@)
            &&& holds_records(bytes, relocations, header.relocations@)
            &&& holds_records(bytes, dependencies, header.dependencies@)
            &&& bytes.len() == padding + header.padding_bytes
            &&& forall|i: int| padding <= i < bytes.len() ==> #[trigger] bytes[i] == 0xFF
        }),
{
    let bytes = header.wire();
    let a = joined(header.regions@);
    let b = joined(header.interrupts@);
    let c = joined(header.relocations@);
    let d = joined(header.dependencies@);
    let e = Seq::new(header.padding_bytes as nat, |i: int| 0xFFu8);
    lemma_joined(Seq::empty(), header.regions@, b + c + d + e);
    lemma_joined(a, header.interrupts@, c + d + e);
    lemma_joined(a + b, header.relocations@, d + e);
    lemma_joined(a + b + c, header.dependencies@, e);
    assert(bytes =~= Seq::<u8>::empty() + a + (b + c + d + e));
    assert(bytes =~= a + b + (c + d + e));
    assert(bytes =~= (a + b) + c + (d + e));
    assert(bytes =~= (a + b + c) + d + e);
}

// ---------------------------------------------------------------------------
//  Answers to the device
// ---------------------------------------------------------------------------

/// Why a session is given up.
#[derive(Debug, Clone, Copy, PartialEq, Eq, Structural)]
pub enum Abort {
    /// The device did not ask for what comes next; the byte is its error code.
    Unexpected(u8),
    /// The device went on before it had the whole variable header.
    HeaderLeft,
    /// The device went on before it had the whole payload.
    PayloadLeft,
    /// The device asked for more fragments than there are.
    NoMoreFragments,
}

/// What the host does on a byte from the device.
pub enum Reply {
    /// Send these bytes, with a CRC-8 behind them.
    Framed(Vec<u8>),
    /// Send these bytes as they are.
    Raw(Vec<u8>),
    /// Send nothing, and wait for the next byte.
    Wait,
    /// The device has the component.
    Success,
    /// Give up.
    Abort(Abort),
}

/// What a [`Reply`] says, over mathematical sequences.
pub enum ReplyView {
    Framed(Seq<u8>),
    Raw(Seq<u8>),
    Wait,
    Success,
    Abort(Abort),
}

impl View for Reply {
    type V = ReplyView;

    open spec fn view(&self) -> ReplyView {
        match self {
            Reply::Framed(v) => ReplyView::Framed(v@),
            Reply::Raw(v) => ReplyView::Raw(v@),
            Reply::Wait => ReplyView::Wait,
            Reply::Success => ReplyView::Success,
            Reply::Abort(a) => ReplyView::Abort(*a),
        }
    }
}

// ---------------------------------------------------------------------------
//  A full component
// ---------------------------------------------------------------------------

/// How far a full update has come.
#[derive(Debug, Clone, Copy, PartialEq, Eq, Structural)]
pub enum FullStage {
    /// The fixed header is to be asked for.
    FixedHeader,
    /// The variable header is to be asked for.
    VariableHeader,
    /// Fragments of the variable header are being asked for.
    VariableFragments,
    /// Fragments of the payload are being asked for.
    PayloadFragments,
    /// Everything has been sent; the device is to confirm.
    Confirmation,
    /// The session is over.
    Closed,
}

/// The mathematical state of a [`FullSession`].
pub struct FullState {
    pub stage: FullStage,
    pub fixed_header: Seq<u8>,
    pub variable: FragmenterState,
    pub payload: FragmenterState,
    pub trailer: Seq<u8>,
}

impl FullState {
    /// A session that has not begun, for a component with these headers, sections and checksum;
    /// where there is no data section, it is empty.
    pub open spec fn begin(
        base_header: Seq<u8>,
        main_header: Seq<u8>,
        variable_header: Seq<u8>,
        read_only_section: Seq<u8>,
        data_section: Seq<u8>,
        checksum: u32,
    ) -> Self {
        FullState {
            stage: FullStage::FixedHeader,
            fixed_header: base_header + main_header,
            variable: FragmenterState { data: variable_header, pos: 0 },
            payload: FragmenterState { data: read_only_section + data_section, pos: 0 },
            trailer: le::u32_bytes(checksum),
        }
    }

    /// Past a stage, its fragments have all been handed out.
    pub open spec fn wf(self) -> bool {
        &&& self.stage is PayloadFragments || self.stage is Confirmation
            ==> self.variable.exhausted()
        &&& self.stage is Confirmation ==> self.payload.exhausted()
    }

    /// The session over.
    pub open spec fn closed(self) -> Self {
        FullState { stage: FullStage::Closed, ..self }
    }

    /// The answer to one byte from the device.
    pub open spec fn next(self, request: u8) -> (Self, ReplyView) {
        match self.stage {
            FullStage::FixedHeader => if request == SEND_COMPONENT_FIXED_HEADER {
                (
                    FullState { stage: FullStage::VariableHeader, ..self },
                    ReplyView::Framed(self.fixed_header),
                )
            } else {
                (self.closed(), ReplyView::Abort(Abort::Unexpected(request)))
            },
            FullStage::VariableHeader => if request == SEND_COMPONENT_VARIABLE_HEADER {
                (FullState { stage: FullStage::VariableFragments, ..self }, ReplyView::Wait)
            } else {
                (self.closed(), ReplyView::Abort(Abort::Unexpected(request)))
            },
            FullStage::VariableFragments => if request == SEND_COMPONENT_PAYLOAD {
                if self.variable.exhausted() {
                    (FullState { stage: FullStage::PayloadFragments, ..self }, ReplyView::Wait)
                } else {
                    (self.closed(), ReplyView::Abort(Abort::HeaderLeft))
                }
            } else if request == SEND_NEXT_FRAGMENT {
                match self.variable.next() {
                    (Some(fragment), after) => (
                        FullState { variable: after, ..self },
                        ReplyView::Framed(fragment),
                    ),
                    (None, _) => (self.closed(), ReplyView::Abort(Abort::NoMoreFragments)),
                }
            } else {
                (self.closed(), ReplyView::Abort(Abort::Unexpected(request)))
            },
            FullStage::PayloadFragments => if request == SEND_COMPONENT_TRAILER {
                if self.payload.exhausted() {
                    (
                        FullState { stage: FullStage::Confirmation, ..self },
                        ReplyView::Raw(self.trailer),
                    )
                } else {
                    (self.closed(), ReplyView::Abort(Abort::PayloadLeft))
                }
            } else if request == SEND_NEXT_FRAGMENT {
                match self.payload.next() {
                    (Some(fragment), after) => (
                        FullState { payload: after, ..self },
                        ReplyView::Framed(fragment),
                    ),
                    (None, _) => (self.closed(), ReplyView::Abort(Abort::NoMoreFragments)),
                }
            } else {
                (self.closed(), ReplyView::Abort(Abort::Unexpected(request)))
            },
            FullStage::Confirmation => if request == SUCCESS {
                (self.closed(), ReplyView::Success)
            } else {
                (self.closed(), ReplyView::Abort(Abort::Unexpected(request)))
            },
            FullStage::Closed => (self, ReplyView::Abort(Abort::Unexpected(request))),
        }
    }

    /// The answers to a run of bytes from the device.
    pub open spec fn answers(self, requests: Seq<u8>) -> Seq<ReplyView>
        decreases requests.len(),
    {
        if requests.len() == 0 {
            Seq::empty()
        } else {
            let (after, reply) = self.next(requests[0]);
            seq![reply] + after.answers(requests.drop_first())
        }
    }

    /// The block that is being sent in fragments.
    pub open spec fn block(self) -> FragmenterState {
        if self.stage is PayloadFragments {
            self.payload
        } else {
            self.variable
        }
    }

    /// The state in which the whole block has been sent.
    pub open spec fn block_sent(self) -> Self {
        if self.stage is PayloadFragments {
            FullState {
                payload: FragmenterState { pos: self.payload.data.len(), ..self.payload },
                ..self
            }
        } else {
            FullState {
                variable: FragmenterState { pos: self.variable.data.len(), ..self.variable },
                ..self
            }
        }
    }
}

/// One update with a full component, after the hello.
pub struct FullSession {
    stage: FullStage,
    fixed_header: Vec<u8>,
    variable: Fragmenter,
    payload: Fragmenter,
    trailer: Vec<u8>,
}

impl View for FullSession {
    type V = FullState;

    closed spec fn view(&self) -> FullState {
        FullState {
            stage: self.stage,
            fixed_header: self.fixed_header@,
            variable: self.variable@,
            payload: self.payload@,
            trailer: self.trailer@,
        }
    }
}

impl FullSession {
    /// A session for a component with these headers, sections and checksum.
    pub fn new(
        base_header: &[u8],
        main_header: &[u8],
        variable_header: Vec<u8>,
        read_only_section: &[u8],
        data_section: Option<&[u8]>,
        checksum: u32,
    ) -> (session: Self)
        ensures
            session@ == FullState::begin(
                base_header@,
                main_header@,
                variable_header@,
                read_only_section@,
                match data_section {
                    Some(data) => data@,
                    None => Seq::empty(),
                },
                checksum,
            ),
            session@ == (FullState {
                stage: FullStage::FixedHeader,
                fixed_header: base_header@ + main_header@,
                variable: FragmenterState { data: variable_header@, pos: 0 },
                payload: FragmenterState {
                    data: read_only_section@ + (match data_section {
                        Some(data) => data@,
                        None => Seq::empty(),
                    }),
                    pos: 0,
                },
                trailer: le::u32_bytes(checksum),
            }),
            session@.wf(),
    {
        let mut fixed_header: Vec<u8> = Vec::new();
        fixed_header.extend_from_slice(base_header);
        fixed_header.extend_from_slice(main_header);
        assert(fixed_header@ =~= base_header@ + main_header@);
        let mut payload: Vec<u8> = Vec::new();
        payload.extend_from_slice(read_only_section);
        if let Some(data) = data_section {
            payload.extend_from_slice(data);
        }
        assert(payload@ =~= read_only_section@ + (match data_section {
            Some(data) => data@,
            None => Seq::empty(),
        }));
        let mut trailer: Vec<u8> = Vec::new();
        le::push_u32(&mut trailer, checksum);
        assert(trailer@ =~= le::u32_bytes(checksum));
        FullSession {
            stage: FullStage::FixedHeader,
            fixed_header,
            variable: Fragmenter::new(variable_header),
            payload: Fragmenter::new(payload),
            trailer,
        }
    }

    /// How far the session has come.
    pub fn stage(&self) -> (s: FullStage)
        ensures
            s == self@.stage,
    {
        self.stage
    }

    /// The number of the next fragment of the block that is being sent, counted from 1, and
    /// how many there are.
    pub fn fragment_progress(&self) -> (r: (Option<usize>, usize))
        ensures
            ({
                let block = self@.block();
                &&& r.0 == protocol::next_fragment_number(block)
                &&& r.1 == protocol::fragment_count(block.data.len())
            }),
    {
        match self.stage {
            FullStage::PayloadFragments => (
                self.payload.get_next_fragment_number(),
                self.payload.get_total_fragments(),
            ),
            _ => (self.variable.get_next_fragment_number(), self.variable.get_total_fragments()),
        }
    }

    /// The answer to one byte from the device.
    pub fn answer(&mut self, request: u8) -> (r: Reply)
        ensures
            final(self)@ == old(self)@.next(request).0,
            r@ == old(self)@.next(request).1,
            old(self)@.wf() ==> final(self)@.wf(),
    {
        match self.stage {
            FullStage::FixedHeader => {
                if request == SEND_COMPONENT_FIXED_HEADER {
                    self.stage = FullStage::VariableHeader;
                    return Reply::Framed(copy_of(&self.fixed_header));
                }
            },
            FullStage::VariableHeader => {
                if request == SEND_COMPONENT_VARIABLE_HEADER {
                    self.stage = FullStage::VariableFragments;
                    return Reply::Wait;
                }
            },
            FullStage::VariableFragments => {
                if request == SEND_COMPONENT_PAYLOAD {
                    if !self.variable.is_exhausted() {
                        self.stage = FullStage::Closed;
                        return Reply::Abort(Abort::HeaderLeft);
                    }
                    self.stage = FullStage::PayloadFragments;
                    return Reply::Wait;
                }
                if request == SEND_NEXT_FRAGMENT {
                    return match self.variable.get_next_fragment() {
                        Some(fragment) => Reply::Framed(fragment),
                        None => {
                            self.stage = FullStage::Closed;
                            Reply::Abort(Abort::NoMoreFragments)
                        },
                    };
                }
            },
            FullStage::PayloadFragments => {
                if request == SEND_COMPONENT_TRAILER {
                    if !self.payload.is_exhausted() {
                        self.stage = FullStage::Closed;
                        return Reply::Abort(Abort::PayloadLeft);
                    }
                    self.stage = FullStage::Confirmation;
                    return Reply::Raw(copy_of(&self.trailer));
                }
                if request == SEND_NEXT_FRAGMENT {
                    return match self.payload.get_next_fragment() {
                        Some(fragment) => Reply::Framed(fragment),
                        None => {
                            self.stage = FullStage::Closed;
                            Reply::Abort(Abort::NoMoreFragments)
                        },
                    };
                }
            },
            FullStage::Confirmation => {
                if request == SUCCESS {
                    self.stage = FullStage::Closed;
                    return Reply::Success;
                }
            },
            FullStage::Closed => {},
        }
        self.stage = FullStage::Closed;
        Reply::Abort(Abort::Unexpected(request))
    }
}

/// A session keeps its invariant, and ends in success only when the device has been handed
/// the whole variable header and the whole payload.
pub proof fn law_success_means_all_sent(s: FullState, request: u8)
    requires
        s.wf(),
    ensures
        s.next(request).0.wf(),
        s.next(request).1 is Success ==> s.variable.exhausted() && s.payload.exhausted(),
{
}

/// Asking for each fragment of a block in turn, and then for `rest`.
pub open spec fn fragment_requests(count: nat, rest: Seq<u8>) -> Seq<u8> {
    Seq::new(count, |i: int| SEND_NEXT_FRAGMENT) + rest
}

/// The fragments as they are sent.
pub open spec fn framed(fragments: Seq<Seq<u8>>) -> Seq<ReplyView> {
    fragments.map_values(|f: Seq<u8>| ReplyView::Framed(f))
}

proof fn lemma_block_dialogue(s: FullState, rest: Seq<u8>)
    requires
        s.stage is VariableFragments || s.stage is PayloadFragments,
        s.block().pos <= s.block().data.len(),
    ensures
        ({
            let left = protocol::fragments(s.block().data.skip(s.block().pos as int));
            s.answers(fragment_requests(left.len(), rest)) == framed(left)
                + s.block_sent().answers(rest)
        }),
    decreases s.block().data.len() - s.block().pos,
{
    let left = protocol::fragments(s.block().data.skip(s.block().pos as int));
    let requests = fragment_requests(left.len(), rest);
    protocol::law_fragmenter_hands_out_fragments(s.block());
    if s.block().exhausted() {
        assert(requests =~= rest);
        assert(s.block_sent() == s);
        assert(framed(left) + s.answers(rest) =~= s.answers(rest));
    } else {
        let (after, reply) = s.next(SEND_NEXT_FRAGMENT);
        lemma_block_dialogue(after, rest);
        let later = protocol::fragments(after.block().data.skip(after.block().pos as int));
        assert(requests[0] == SEND_NEXT_FRAGMENT);
        assert(requests.drop_first() =~= fragment_requests(later.len(), rest));
        assert(after.block_sent() == s.block_sent());
        assert(seq![reply] + framed(later) =~= framed(left));
        assert(seq![reply] + (framed(later) + s.block_sent().answers(rest)) =~= framed(left)
            + s.block_sent().answers(rest));
    }
}

/// A device that asks for everything in turn is sent the fixed header, the fragments of the
/// variable header, the fragments of the payload, and the trailer.
pub proof fn law_full_dialogue(s: FullState)
    requires
        s.stage is FixedHeader,
        s.variable.pos == 0,
        s.payload.pos == 0,
    ensures
        ({
            let variable = protocol::fragments(s.variable.data);
            let payload = protocol::fragments(s.payload.data);
            s.answers(
                seq![SEND_COMPONENT_FIXED_HEADER, SEND_COMPONENT_VARIABLE_HEADER]
                    + fragment_requests(
                    variable.len(),
                    seq![SEND_COMPONENT_PAYLOAD] + fragment_requests(
                        payload.len(),
                        seq![SEND_COMPONENT_TRAILER, SUCCESS],
                    ),
                ),
            ) == seq![ReplyView::Framed(s.fixed_header), ReplyView::Wait] + (framed(variable) + (
            seq![ReplyView::Wait] + (framed(payload) + seq![
                ReplyView::Raw(s.trailer),
                ReplyView::Success,
            ])))
        }),
{
    let variable = protocol::fragments(s.variable.data);
    let payload = protocol::fragments(s.payload.data);
    let ending = seq![SEND_COMPONENT_TRAILER, SUCCESS];
    let third = fragment_requests(payload.len(), ending);
    let second = seq![SEND_COMPONENT_PAYLOAD] + third;
    let first = fragment_requests(variable.len(), second);
    let requests = seq![SEND_COMPONENT_FIXED_HEADER, SEND_COMPONENT_VARIABLE_HEADER] + first;
    let s1 = s.next(SEND_COMPONENT_FIXED_HEADER).0;
    let s2 = s1.next(SEND_COMPONENT_VARIABLE_HEADER).0;
    let s3 = s2.block_sent();
    let s4 = s3.next(SEND_COMPONENT_PAYLOAD).0;
    let s5 = s4.block_sent();
    assert(s.variable.data.skip(0) =~= s.variable.data);
    assert(s.payload.data.skip(0) =~= s.payload.data);
    lemma_block_dialogue(s2, second);
    lemma_block_dialogue(s4, ending);
    let s6 = s5.next(SEND_COMPONENT_TRAILER).0;
    assert(ending.drop_first() =~= seq![SUCCESS]);
    assert(ending.drop_first().drop_first() =~= Seq::<u8>::empty());
    reveal_with_fuel(FullState::answers, 3);
    let closing = seq![ReplyView::Raw(s.trailer), ReplyView::Success];
    assert(s6.answers(seq![SUCCESS]) =~= seq![ReplyView::Success]);
    assert(s5.answers(ending) =~= closing);
    assert(second.drop_first() =~= third);
    assert(s3.answers(second) == seq![ReplyView::Wait] + s4.answers(third));
    assert(requests.drop_first()[0] == SEND_COMPONENT_VARIABLE_HEADER);
    assert(requests.drop_first().drop_first() =~= first);
    assert(s1.answers(requests.drop_first()) == seq![ReplyView::Wait] + s2.answers(first));
    let later = s2.answers(first);
    assert(seq![ReplyView::Framed(s.fixed_header)] + (seq![ReplyView::Wait] + later) =~= seq![
        ReplyView::Framed(s.fixed_header),
        ReplyView::Wait,
    ] + later);
}

// ---------------------------------------------------------------------------
//  A delta
// ---------------------------------------------------------------------------

/// How far a delta update has come.
#[derive(Debug, Clone, Copy, PartialEq, Eq, Structural)]
pub enum DeltaStage {
    /// The fixed header is to be asked for.
    FixedHeader,
    /// The delta header is to be asked for.
    DeltaHeader,
    /// Fragments of the patch, and the trailer, may be asked for.
    Patch,
    /// The session is over.
    Closed,
}

/// The mathematical state of a [`DeltaSession`].
pub struct DeltaState {
    pub stage: DeltaStage,
    pub fixed_header: Seq<u8>,
    pub delta_header: Seq<u8>,
    pub patch: FragmenterState,
    pub trailer: Seq<u8>,
}

impl DeltaState {
    /// A session that has not begun, for a delta image that has been taken apart.
    pub open spec fn begin(parts: DeltaPartsView) -> Self {
        DeltaState {
            stage: DeltaStage::FixedHeader,
            fixed_header: parts.fixed_header,
            delta_header: parts.delta_header,
            patch: FragmenterState { data: parts.patch, pos: 0 },
            trailer: parts.trailer,
        }
    }

    /// The session over.
    pub open spec fn closed(self) -> Self {
        DeltaState { stage: DeltaStage::Closed, ..self }
    }

    /// The answer to one byte from the device.
    pub open spec fn next(self, request: u8) -> (Self, ReplyView) {
        match self.stage {
            DeltaStage::FixedHeader => if request == SEND_COMPONENT_FIXED_HEADER {
                (
                    DeltaState { stage: DeltaStage::DeltaHeader, ..self },
                    ReplyView::Framed(self.fixed_header),
                )
            } else {
                (self.closed(), ReplyView::Abort(Abort::Unexpected(request)))
            },
            DeltaStage::DeltaHeader => if request == SEND_DELTA_HEADER {
                (
                    DeltaState { stage: DeltaStage::Patch, ..self },
                    ReplyView::Framed(self.delta_header),
                )
            } else {
                (self.closed(), ReplyView::Abort(Abort::Unexpected(request)))
            },
            DeltaStage::Patch => if request == SEND_NEXT_FRAGMENT {
                match self.patch.next() {
                    (Some(fragment), after) => (
                        DeltaState { patch: after, ..self },
                        ReplyView::Framed(fragment),
                    ),
                    (None, _) => (self.closed(), ReplyView::Abort(Abort::NoMoreFragments)),
                }
            } else if request == SEND_COMPONENT_TRAILER {
                (self, ReplyView::Raw(self.trailer))
            } else if request == SUCCESS {
                (self.closed(), ReplyView::Success)
            } else {
                (self.closed(), ReplyView::Abort(Abort::Unexpected(request)))
            },
            DeltaStage::Closed => (self, ReplyView::Abort(Abort::Unexpected(request))),
        }
    }

    /// The answers to a run of bytes from the device.
    pub open spec fn answers(self, requests: Seq<u8>) -> Seq<ReplyView>
        decreases requests.len(),
    {
        if requests.len() == 0 {
            Seq::empty()
        } else {
            let (after, reply) = self.next(requests[0]);
            seq![reply] + after.answers(requests.drop_first())
        }
    }

    /// The session with the whole patch sent.
    pub open spec fn patch_sent(self) -> Self {
        DeltaState {
            patch: FragmenterState { pos: self.patch.data.len(), ..self.patch },
            ..self
        }
    }
}

/// One update with a delta, after the hello.
///
/// Device request sequence on the delta path: fixed header, delta header, patch fragments,
/// optionally the trailer, then success.
pub struct DeltaSession {
    stage: DeltaStage,
    fixed_header: Vec<u8>,
    delta_header: Vec<u8>,
    patch: Fragmenter,
    trailer: Vec<u8>,
}

impl View for DeltaSession {
    type V = DeltaState;

    closed spec fn view(&self) -> DeltaState {
        DeltaState {
            stage: self.stage,
            fixed_header: self.fixed_header@,
            delta_header: self.delta_header@,
            patch: self.patch@,
            trailer: self.trailer@,
        }
    }
}

impl DeltaSession {
    /// A session for a delta image that has been taken apart.
    pub fn new(parts: DeltaParts) -> (session: Self)
        ensures
            session@ == DeltaState::begin(
                DeltaPartsView {
                    fixed_header: parts.fixed_header@,
                    delta_header: parts.delta_header@,
                    patch: parts.patch@,
                    trailer: parts.trailer@,
                },
            ),
            session@ == (DeltaState {
                stage: DeltaStage::FixedHeader,
                fixed_header: parts.fixed_header@,
                delta_header: parts.delta_header@,
                patch: FragmenterState { data: parts.patch@, pos: 0 },
                trailer: parts.trailer@,
            }),
    {
        DeltaSession {
            stage: DeltaStage::FixedHeader,
            fixed_header: parts.fixed_header,
            delta_header: parts.delta_header,
            patch: Fragmenter::new(parts.patch),
            trailer: parts.trailer,
        }
    }

    /// How far the session has come.
    pub fn stage(&self) -> (s: DeltaStage)
        ensures
            s == self@.stage,
    {
        self.stage
    }

    /// The number of the next fragment, counted from 1, and how many there are.
    pub fn fragment_progress(&self) -> (r: (Option<usize>, usize))
        ensures
            r.0 == protocol::next_fragment_number(self@.patch),
            r.1 == protocol::fragment_count(self@.patch.data.len()),
    {
        (self.patch.get_next_fragment_number(), self.patch.get_total_fragments())
    }

    /// The answer to one byte from the device.
    pub fn answer(&mut self, request: u8) -> (r: Reply)
        ensures
            final(self)@ == old(self)@.next(request).0,
            r@ == old(self)@.next(request).1,
    {
        match self.stage {
            DeltaStage::FixedHeader => {
                if request == SEND_COMPONENT_FIXED_HEADER {
                    self.stage = DeltaStage::DeltaHeader;
                    return Reply::Framed(copy_of(&self.fixed_header));
                }
            },
            DeltaStage::DeltaHeader => {
                if request == SEND_DELTA_HEADER {
                    self.stage = DeltaStage::Patch;
                    return Reply::Framed(copy_of(&self.delta_header));
                }
            },
            DeltaStage::Patch => {
                if request == SEND_NEXT_FRAGMENT {
                    return match self.patch.get_next_fragment() {
                        Some(fragment) => Reply::Framed(fragment),
                        None => {
                            self.stage = DeltaStage::Closed;
                            Reply::Abort(Abort::NoMoreFragments)
                        },
                    };
                }
                if request == SEND_COMPONENT_TRAILER {
                    return Reply::Raw(copy_of(&self.trailer));
                }
                if request == SUCCESS {
                    self.stage = DeltaStage::Closed;
                    return Reply::Success;
                }
            },
            DeltaStage::Closed => {},
        }
        self.stage = DeltaStage::Closed;
        Reply::Abort(Abort::Unexpected(request))
    }
}

proof fn lemma_patch_dialogue(s: DeltaState, rest: Seq<u8>)
    requires
        s.stage is Patch,
        s.patch.pos <= s.patch.data.len(),
    ensures
        ({
            let left = protocol::fragments(s.patch.data.skip(s.patch.pos as int));
            s.answers(fragment_requests(left.len(), rest)) == framed(left)
                + s.patch_sent().answers(rest)
        }),
    decreases s.patch.data.len() - s.patch.pos,
{
    let left = protocol::fragments(s.patch.data.skip(s.patch.pos as int));
    let requests = fragment_requests(left.len(), rest);
    protocol::law_fragmenter_hands_out_fragments(s.patch);
    if s.patch.exhausted() {
        assert(requests =~= rest);
        assert(s.patch_sent() == s);
        assert(framed(left) + s.answers(rest) =~= s.answers(rest));
    } else {
        let (after, reply) = s.next(SEND_NEXT_FRAGMENT);
        lemma_patch_dialogue(after, rest);
        let later = protocol::fragments(after.patch.data.skip(after.patch.pos as int));
        assert(requests[0] == SEND_NEXT_FRAGMENT);
        assert(requests.drop_first() =~= fragment_requests(later.len(), rest));
        assert(after.patch_sent() == s.patch_sent());
        assert(seq![reply] + framed(later) =~= framed(left));
        assert(seq![reply] + (framed(later) + s.patch_sent().answers(rest)) =~= framed(left)
            + s.patch_sent().answers(rest));
    }
}

/// How a device ends a delta update, once it has the patch: it may ask for the trailer or not.
pub open spec fn closing_requests(with_trailer: bool) -> Seq<u8> {
    if with_trailer {
        seq![SEND_COMPONENT_TRAILER, SUCCESS]
    } else {
        seq![SUCCESS]
    }
}

/// A device that asks for everything in turn is sent the fixed header, the delta header and the
/// fragments of the patch, and the trailer if it asks for it; then the update has succeeded.
pub proof fn law_delta_dialogue(s: DeltaState, with_trailer: bool)
    requires
        s.stage is FixedHeader,
        s.patch.pos == 0,
    ensures
        s.answers(
            seq![SEND_COMPONENT_FIXED_HEADER, SEND_DELTA_HEADER] + fragment_requests(
                protocol::fragment_count(s.patch.data.len()),
                closing_requests(with_trailer),
            ),
        ) == seq![ReplyView::Framed(s.fixed_header), ReplyView::Framed(s.delta_header)] + framed(
            protocol::fragments(s.patch.data),
        ) + (if with_trailer {
            seq![ReplyView::Raw(s.trailer), ReplyView::Success]
        } else {
            seq![ReplyView::Success]
        }),
{
    let closing = closing_requests(with_trailer);
    let tail = fragment_requests(protocol::fragment_count(s.patch.data.len()), closing);
    let requests = seq![SEND_COMPONENT_FIXED_HEADER, SEND_DELTA_HEADER] + tail;
    let s1 = s.next(SEND_COMPONENT_FIXED_HEADER).0;
    let s2 = s1.next(SEND_DELTA_HEADER).0;
    let s3 = s2.patch_sent();
    let ending = if with_trailer {
        seq![ReplyView::Raw(s.trailer), ReplyView::Success]
    } else {
        seq![ReplyView::Success]
    };
    protocol::law_fragments(s.patch.data);
    assert(s.patch.data.skip(0) =~= s.patch.data);
    lemma_patch_dialogue(s2, closing);
    assert(s3.answers(closing) =~= ending) by {
        reveal_with_fuel(DeltaState::answers, 4);
        if with_trailer {
            assert(closing.drop_first() =~= seq![SUCCESS]);
            assert(closing.drop_first().drop_first() =~= Seq::<u8>::empty());
        } else {
            assert(closing.drop_first() =~= Seq::<u8>::empty());
        }
    }
    assert(requests.drop_first().drop_first() =~= tail);
    assert(requests.drop_first()[0] == SEND_DELTA_HEADER);
    assert(s1.answers(requests.drop_first()) == seq![ReplyView::Framed(s.delta_header)]
        + s2.answers(tail));
    let all = framed(protocol::fragments(s.patch.data));
    assert(seq![ReplyView::Framed(s.fixed_header)] + (seq![ReplyView::Framed(s.delta_header)] + (
    all + ending)) =~= seq![
        ReplyView::Framed(s.fixed_header),
        ReplyView::Framed(s.delta_header),
    ] + all + ending);
}

// ---------------------------------------------------------------------------
//  What is answered, and what is refused
// ---------------------------------------------------------------------------

/// A delta image can be taken apart if it has room for its headers and trailer and for as much
/// patch as its header declares; then the parts are the image, up to what may stand between patch
/// and trailer.  One byte too few for any of them, and it is refused.
pub proof fn law_parts_make_up_the_image(image: Seq<u8>, fixed_len: nat)
    requires
        image.len() <= usize::MAX,
    ensures
        ({
            let size_at = fixed_len as int + 24;
            let declared = image[size_at] + 256 * image[size_at + 1] + 65536 * image[size_at + 2]
                + 16777216 * image[size_at + 3];
            match parts_of(image, fixed_len) {
                Err(LayoutError::TooShort) => image.len() < fixed_len + 36,
                Err(LayoutError::PatchOverruns { patch_size, len }) => {
                    &&& image.len() >= fixed_len + 36
                    &&& len == image.len()
                    &&& patch_size == declared
                    &&& fixed_len + 36 + declared > image.len()
                },
                Ok(p) => {
                    let gap = image.len() - (fixed_len + 36 + declared);
                    &&& gap >= 0
                    &&& p.fixed_header.len() == fixed_len
                    &&& p.delta_header.len() == 32
                    &&& p.patch.len() == declared
                    &&& p.trailer.len() == 4
                    &&& gap == 0 ==> image == p.fixed_header + p.delta_header + p.patch + p.trailer
                    &&& image.take(fixed_len + 32 + declared) == p.fixed_header + p.delta_header
                        + p.patch
                    &&& image.skip(image.len() - 4) == p.trailer
                },
            }
        }),
{
    if let Ok(p) = parts_of(image, fixed_len) {
        let front = p.fixed_header + p.delta_header + p.patch;
        assert(image.take(front.len() as int) =~= front);
        assert(image.skip(image.len() - 4) =~= p.trailer);
        if image.len() == front.len() + 4 {
            assert(image =~= front + p.trailer);
        }
    }
}

/// The fragment of a block that is up next, if any byte of it is left: 64 bytes, or what is left.
pub open spec fn is_up_next(block: FragmenterState, fragment: Seq<u8>) -> bool {
    &&& block.pos < block.data.len()
    &&& fragment.len() == 64 || block.pos + fragment.len() == block.data.len()
    &&& fragment.len() <= 64
    &&& fragment == block.data.subrange(block.pos as int, (block.pos + fragment.len()) as int)
}

/// What the host answers in a full update, and when: each answer comes in one stage and on one
/// byte from the device only, and a byte that has no answer in a stage ends the session.
pub proof fn law_full_answers(s: FullState, request: u8)
    ensures
        ({
            let (after, reply) = s.next(request);
            &&& match reply {
                ReplyView::Framed(data) => {
                    ||| s.stage is FixedHeader && request == 0x01 && data == s.fixed_header
                        && after == FullState { stage: FullStage::VariableHeader, ..s }
                    ||| s.stage is VariableFragments && request == 0xA0 && is_up_next(
                        s.variable,
                        data,
                    ) && after == FullState {
                        variable: FragmenterState {
                            pos: s.variable.pos + data.len(),
                            ..s.variable
                        },
                        ..s
                    }
                    ||| s.stage is PayloadFragments && request == 0xA0 && is_up_next(
                        s.payload,
                        data,
                    ) && after == FullState {
                        payload: FragmenterState { pos: s.payload.pos + data.len(), ..s.payload },
                        ..s
                    }
                },
                ReplyView::Raw(data) => s.stage is PayloadFragments && request == 0x04
                    && s.payload.pos >= s.payload.data.len() && data == s.trailer && after
                    == FullState { stage: FullStage::Confirmation, ..s },
                ReplyView::Wait => {
                    ||| s.stage is VariableHeader && request == 0x02 && after == FullState {
                        stage: FullStage::VariableFragments,
                        ..s
                    }
                    ||| s.stage is VariableFragments && request == 0x03 && s.variable.pos
                        >= s.variable.data.len() && after == FullState {
                        stage: FullStage::PayloadFragments,
                        ..s
                    }
                },
                ReplyView::Success => s.stage is Confirmation && request == 0xFF,
                ReplyView::Abort(Abort::HeaderLeft) => s.stage is VariableFragments && request
                    == 0x03 && s.variable.pos < s.variable.data.len(),
                ReplyView::Abort(Abort::PayloadLeft) => s.stage is PayloadFragments && request
                    == 0x04 && s.payload.pos < s.payload.data.len(),
                ReplyView::Abort(Abort::NoMoreFragments) => request == 0xA0 && ((s.stage
                    is VariableFragments && s.variable.pos >= s.variable.data.len()) || (s.stage
                    is PayloadFragments && s.payload.pos >= s.payload.data.len())),
                ReplyView::Abort(Abort::Unexpected(byte)) => byte == request && match s.stage {
                    FullStage::FixedHeader => request != 0x01,
                    FullStage::VariableHeader => request != 0x02,
                    FullStage::VariableFragments => request != 0x03 && request != 0xA0,
                    FullStage::PayloadFragments => request != 0x04 && request != 0xA0,
                    FullStage::Confirmation => request != 0xFF,
                    FullStage::Closed => true,
                },
            }
            &&& reply is Abort || reply is Success ==> after == FullState {
                stage: FullStage::Closed,
                ..s
            }
        }),
{
}

/// What the host answers in a delta update, and when: each answer comes in one stage and on one
/// byte from the device only, and a byte that has no answer in a stage ends the session.
pub proof fn law_delta_answers(s: DeltaState, request: u8)
    ensures
        ({
            let (after, reply) = s.next(request);
            &&& match reply {
                ReplyView::Framed(data) => {
                    ||| s.stage is FixedHeader && request == 0x01 && data == s.fixed_header
                        && after == DeltaState { stage: DeltaStage::DeltaHeader, ..s }
                    ||| s.stage is DeltaHeader && request == 0xB0 && data == s.delta_header
                        && after == DeltaState { stage: DeltaStage::Patch, ..s }
                    ||| s.stage is Patch && request == 0xA0 && is_up_next(s.patch, data) && after
                        == DeltaState {
                        patch: FragmenterState { pos: s.patch.pos + data.len(), ..s.patch },
                        ..s
                    }
                },
                ReplyView::Raw(data) => s.stage is Patch && request == 0x04 && data == s.trailer
                    && after == s,
                ReplyView::Wait => false,
                ReplyView::Success => s.stage is Patch && request == 0xFF,
                ReplyView::Abort(Abort::NoMoreFragments) => s.stage is Patch && request == 0xA0
                    && s.patch.pos >= s.patch.data.len(),
                ReplyView::Abort(Abort::Unexpected(byte)) => byte == request && match s.stage {
                    DeltaStage::FixedHeader => request != 0x01,
                    DeltaStage::DeltaHeader => request != 0xB0,
                    DeltaStage::Patch => request != 0xA0 && request != 0x04 && request != 0xFF,
                    DeltaStage::Closed => true,
                },
                ReplyView::Abort(_) => false,
            }
            &&& reply is Abort || reply is Success ==> after == DeltaState {
                stage: DeltaStage::Closed,
                ..s
            }
        }),
{
}

// ---------------------------------------------------------------------------
//  What a session costs
// ---------------------------------------------------------------------------

/// The bytes that an answer takes on the wire: what it holds, a CRC behind it if it is framed, and
/// the nine bytes of its packet.
pub open spec fn reply_cost(reply: ReplyView) -> nat {
    match reply {
        ReplyView::Framed(data) => data.len() + 1 + 9,
        ReplyView::Raw(data) => data.len() + 9,
        _ => 0,
    }
}

/// The bytes that some answers take on the wire.
pub open spec fn replies_cost(replies: Seq<ReplyView>) -> nat
    decreases replies.len(),
{
    if replies.len() == 0 {
        0
    } else {
        reply_cost(replies[0]) + replies_cost(replies.drop_first())
    }
}

proof fn lemma_replies_cost(a: Seq<ReplyView>, b: Seq<ReplyView>)
    ensures
        replies_cost(a + b) == replies_cost(a) + replies_cost(b),
    decreases a.len(),
{
    if a.len() > 0 {
        lemma_replies_cost(a.drop_first(), b);
        assert((a + b).drop_first() =~= a.drop_first() + b);
    } else {
        assert(a + b =~= b);
    }
}

proof fn lemma_framed_cost(blocks: Seq<Seq<u8>>)
    ensures
        replies_cost(framed(blocks)) == protocol::cost_of_all(blocks),
    decreases blocks.len(),
{
    if blocks.len() > 0 {
        lemma_framed_cost(blocks.drop_first());
        assert(framed(blocks).drop_first() =~= framed(blocks.drop_first()));
    }
}

proof fn lemma_one_reply(reply: ReplyView)
    ensures
        replies_cost(seq![reply]) == reply_cost(reply),
{
    reveal_with_fuel(replies_cost, 2);
    assert(seq![reply].drop_first() =~= Seq::<ReplyView>::empty());
}

/// What a full update is said to cost is what the session costs: the answers to a device that asks
/// for everything in turn, with the hello before them; and there are as many packets from the
/// device as it makes requests, up to the one for the trailer, with its answer to the hello.
pub proof fn law_full_cost_is_that_of_the_session(s: FullState)
    requires
        s.stage is FixedHeader,
        s.variable.pos == 0,
        s.payload.pos == 0,
        s.trailer.len() == 4,
    ensures
        ({
            let requests = seq![0x01u8, 0x02u8] + fragment_requests(
                protocol::fragment_count(s.variable.data.len()),
                seq![0x03u8] + fragment_requests(
                    protocol::fragment_count(s.payload.data.len()),
                    seq![0x04u8, 0xFFu8],
                ),
            );
            &&& (2 + 9) + replies_cost(s.answers(requests)) == protocol::full_to_device(
                s.fixed_header.len(),
                s.variable.data.len(),
                s.payload.data.len(),
            )
            &&& 1 + (requests.len() - 1) == protocol::full_requests(
                s.variable.data.len(),
                s.payload.data.len(),
            )
            &&& s.answers(requests).last() is Success
        }),
{
    let variable = protocol::fragments(s.variable.data);
    let payload = protocol::fragments(s.payload.data);
    law_full_dialogue(s);
    protocol::law_fragments(s.variable.data);
    protocol::law_fragments(s.payload.data);
    protocol::law_fragments_cost(s.variable.data);
    protocol::law_fragments_cost(s.payload.data);
    lemma_framed_cost(variable);
    lemma_framed_cost(payload);
    let (a, b) = (ReplyView::Framed(s.fixed_header), ReplyView::Wait);
    let (y, z) = (ReplyView::Raw(s.trailer), ReplyView::Success);
    let ending = seq![y, z];
    let third = framed(payload) + ending;
    let second = seq![b] + third;
    let first = framed(variable) + second;
    lemma_one_reply(a);
    lemma_one_reply(b);
    lemma_one_reply(y);
    lemma_one_reply(z);
    assert(ending =~= seq![y] + seq![z]);
    lemma_replies_cost(seq![y], seq![z]);
    lemma_replies_cost(framed(payload), ending);
    lemma_replies_cost(seq![b], third);
    lemma_replies_cost(framed(variable), second);
    assert(seq![a, b] =~= seq![a] + seq![b]);
    lemma_replies_cost(seq![a], seq![b]);
    lemma_replies_cost(seq![a, b], first);
}

/// What a delta update is said to cost is what the session costs: the answers to a device that
/// asks for everything in turn, with the hello before them; and there are as many packets from the
/// device as it makes requests, up to the one for the trailer, with its answer to the hello.
pub proof fn law_delta_cost_is_that_of_the_session(s: DeltaState)
    requires
        s.stage is FixedHeader,
        s.patch.pos == 0,
        s.trailer.len() == 4,
    ensures
        ({
            let requests = seq![0x01u8, 0xB0u8] + fragment_requests(
                protocol::fragment_count(s.patch.data.len()),
                seq![0x04u8, 0xFFu8],
            );
            &&& (2 + 9) + replies_cost(s.answers(requests)) == protocol::delta_to_device(
                s.fixed_header.len(),
                s.delta_header.len(),
                s.patch.data.len(),
            )
            &&& 1 + (requests.len() - 1) == protocol::delta_requests(s.patch.data.len())
            &&& s.answers(requests).last() is Success
        }),
{
    let patch = protocol::fragments(s.patch.data);
    law_delta_dialogue(s, true);
    protocol::law_fragments(s.patch.data);
    protocol::law_fragments_cost(s.patch.data);
    lemma_framed_cost(patch);
    let (a, b) = (ReplyView::Framed(s.fixed_header), ReplyView::Framed(s.delta_header));
    let (y, z) = (ReplyView::Raw(s.trailer), ReplyView::Success);
    lemma_one_reply(a);
    lemma_one_reply(b);
    lemma_one_reply(y);
    lemma_one_reply(z);
    assert(seq![a, b] =~= seq![a] + seq![b]);
    assert(seq![y, z] =~= seq![y] + seq![z]);
    lemma_replies_cost(seq![a], seq![b]);
    lemma_replies_cost(seq![y], seq![z]);
    lemma_replies_cost(seq![a, b], framed(patch));
    lemma_replies_cost(seq![a, b] + framed(patch), seq![y, z]);
}

// ---------------------------------------------------------------------------
//  What a session sends
// ---------------------------------------------------------------------------

/// The data that some answers hold, put together.
pub open spec fn data_in(replies: Seq<ReplyView>) -> Seq<u8>
    decreases replies.len(),
{
    if replies.len() == 0 {
        Seq::empty()
    } else {
        (match replies[0] {
            ReplyView::Framed(data) => data,
            ReplyView::Raw(data) => data,
            _ => Seq::empty(),
        }) + data_in(replies.drop_first())
    }
}

proof fn lemma_data_in(a: Seq<ReplyView>, b: Seq<ReplyView>)
    ensures
        data_in(a + b) == data_in(a) + data_in(b),
    decreases a.len(),
{
    if a.len() > 0 {
        lemma_data_in(a.drop_first(), b);
        assert((a + b).drop_first() =~= a.drop_first() + b);
        assert(data_in(a + b) =~= data_in(a) + data_in(b));
    } else {
        assert(a + b =~= b);
        assert(data_in(a) + data_in(b) =~= data_in(b));
    }
}

proof fn lemma_data_framed(blocks: Seq<Seq<u8>>)
    ensures
        data_in(framed(blocks)) == blocks.flatten(),
    decreases blocks.len(),
{
    if blocks.len() > 0 {
        lemma_data_framed(blocks.drop_first());
        assert(framed(blocks).drop_first() =~= framed(blocks.drop_first()));
    } else {
        assert(blocks.flatten() =~= Seq::<u8>::empty());
    }
}

proof fn lemma_data_of_two(a: ReplyView, b: ReplyView)
    ensures
        data_in(seq![a, b]) == data_in(seq![a]) + data_in(seq![b]),
{
    lemma_data_in(seq![a], seq![b]);
    assert(seq![a, b] =~= seq![a] + seq![b]);
}

proof fn lemma_data_of_one(reply: ReplyView)
    ensures
        data_in(seq![reply]) == (match reply {
            ReplyView::Framed(data) => data,
            ReplyView::Raw(data) => data,
            _ => Seq::empty(),
        }),
{
    reveal_with_fuel(data_in, 2);
    assert(seq![reply].drop_first() =~= Seq::<ReplyView>::empty());
    assert(data_in(seq![reply]) =~= (match reply {
        ReplyView::Framed(data) => data,
        ReplyView::Raw(data) => data,
        _ => Seq::empty(),
    }));
}

/// A device that asks for everything in turn is sent the image of the component: its base header,
/// its main header, its variable header, its read-only section, its data section and its checksum,
/// lowest byte first; each byte once, and in this order.
pub proof fn law_full_session_sends_the_image(
    base_header: Seq<u8>,
    main_header: Seq<u8>,
    variable_header: Seq<u8>,
    read_only_section: Seq<u8>,
    data_section: Seq<u8>,
    checksum: u32,
)
    ensures
        ({
            let s = FullState::begin(
                base_header,
                main_header,
                variable_header,
                read_only_section,
                data_section,
                checksum,
            );
            let payload = read_only_section + data_section;
            let requests = seq![0x01u8, 0x02u8] + fragment_requests(
                protocol::fragment_count(variable_header.len()),
                seq![0x03u8] + fragment_requests(
                    protocol::fragment_count(payload.len()),
                    seq![0x04u8, 0xFFu8],
                ),
            );
            data_in(s.answers(requests)) == base_header + main_header + variable_header
                + read_only_section + data_section + le::u32_bytes(checksum)
        }),
{
    let s = FullState::begin(
        base_header,
        main_header,
        variable_header,
        read_only_section,
        data_section,
        checksum,
    );
    let variable = protocol::fragments(variable_header);
    let payload = protocol::fragments(read_only_section + data_section);
    law_full_dialogue(s);
    protocol::law_fragments(variable_header);
    protocol::law_fragments(read_only_section + data_section);
    lemma_data_framed(variable);
    lemma_data_framed(payload);
    let (a, b) = (ReplyView::Framed(s.fixed_header), ReplyView::Wait);
    let (y, z) = (ReplyView::Raw(s.trailer), ReplyView::Success);
    lemma_data_of_one(a);
    lemma_data_of_one(b);
    lemma_data_of_one(y);
    lemma_data_of_one(z);
    lemma_data_of_two(a, b);
    lemma_data_of_two(y, z);
    let third = framed(payload) + seq![y, z];
    let second = seq![b] + third;
    let first = framed(variable) + second;
    lemma_data_in(framed(payload), seq![y, z]);
    lemma_data_in(seq![b], third);
    lemma_data_in(framed(variable), second);
    lemma_data_in(seq![a, b], first);
    assert(data_in(seq![a, b] + first) =~= base_header + main_header + variable_header
        + read_only_section + data_section + le::u32_bytes(checksum));
}

/// A device that asks for everything in turn is sent the delta image, each byte once and in order:
/// all of it, where nothing stands between patch and trailer.
pub proof fn law_delta_session_sends_the_image(image: Seq<u8>, fixed_len: nat)
    requires
        image.len() <= usize::MAX,
        parts_of(image, fixed_len) matches Ok(p) && p.patch.len() + fixed_len + 36 == image.len(),
    ensures
        ({
            let p = parts_of(image, fixed_len)->Ok_0;
            let requests = seq![0x01u8, 0xB0u8] + fragment_requests(
                protocol::fragment_count(p.patch.len()),
                seq![0x04u8, 0xFFu8],
            );
            data_in(DeltaState::begin(p).answers(requests)) == image
        }),
{
    let p = parts_of(image, fixed_len)->Ok_0;
    let s = DeltaState::begin(p);
    let patch = protocol::fragments(p.patch);
    law_parts_make_up_the_image(image, fixed_len);
    law_delta_dialogue(s, true);
    protocol::law_fragments(p.patch);
    lemma_data_framed(patch);
    let (a, b) = (ReplyView::Framed(s.fixed_header), ReplyView::Framed(s.delta_header));
    let (y, z) = (ReplyView::Raw(s.trailer), ReplyView::Success);
    lemma_data_of_one(a);
    lemma_data_of_one(b);
    lemma_data_of_one(y);
    lemma_data_of_one(z);
    lemma_data_of_two(a, b);
    lemma_data_of_two(y, z);
    lemma_data_in(seq![a, b], framed(patch));
    lemma_data_in(seq![a, b] + framed(patch), seq![y, z]);
    assert(data_in(s.answers(
        seq![0x01u8, 0xB0u8] + fragment_requests(
            protocol::fragment_count(p.patch.len()),
            seq![0x04u8, 0xFFu8],
        ),
    )) =~= p.fixed_header + p.delta_header + p.patch + p.trailer);
}

/// The block whose fragments are counted is the payload while the payload is being sent, and the
/// variable header at any other time.
pub proof fn law_block_being_sent(s: FullState)
    ensures
        s.stage is PayloadFragments ==> s.block() == s.payload,
        !(s.stage is PayloadFragments) ==> s.block() == s.variable,
{
}

} // verus!

//! The base component of a delta: finding it, and checking that it is the right one.

use std::ops::Range;

use vstd::prelude::*;

use crate::bytes::copy_of;
use crate::chunk_stream;
use crate::crc;
use crate::crc::Crc32State;
use crate::delta_gen;
use crate::delta_gen::relocation_site;
use crate::encoder;
use crate::format::{DeltaHeader, DELTA_HEADER_SIZE};
use crate::le;
use crate::message::MessageError;
use crate::protocol::PACKET_BUFFER_SIZE;
use crate::ranges;
use crate::roundtrip;

verus! {

/// Parse the delta header that the host has sent, and validate its structural fields.
pub fn parse_delta_header(bytes: &[u8]) -> (r: Result<DeltaHeader, MessageError>)
    ensures
        bytes@.len() < DELTA_HEADER_SIZE ==> r == Err::<DeltaHeader, MessageError>(
            MessageError::InvalidSize,
        ),
        bytes@.len() >= DELTA_HEADER_SIZE ==> match r {
            Ok(h) => h.stored_in(bytes@) && h.is_valid(),
            Err(e) => e is FailedHBFValidation && forall|h: DeltaHeader|
                #[trigger] h.stored_in(bytes@) ==> !h.is_valid(),
        },
{
    match DeltaHeader::from_bytes(bytes) {
        None => Err(MessageError::InvalidSize),
        Some(header) => {
            if header.validate() {
                Ok(header)
            } else {
                Err(MessageError::FailedHBFValidation)
            }
        },
    }
}

// ---------------------------------------------------------------------------
//  Finding the base
// ---------------------------------------------------------------------------

/// What a look at one storage block has shown.
#[derive(Debug, Clone, Copy, PartialEq, Eq, Structural)]
pub enum BlockScan {
    /// The block could not be looked up.
    Unavailable,
    /// The block holds no component, or none that can be read.
    NoComponent,
    /// The block holds a component.
    Component { address: u32, id: u16, version: u32, total_size: u32 },
}

impl BlockScan {
    /// What the block settles in the search for the component with this id and version: where
    /// it stands and how large it is, or that the search has failed; `None` if nothing.
    pub open spec fn settles(self, id: u16, version: u32) -> Option<
        Result<(u32, u32), MessageError>,
    > {
        match self {
            BlockScan::Unavailable => Some(Err(MessageError::FlashError)),
            BlockScan::NoComponent => None,
            BlockScan::Component { address, id: i, version: v, total_size } => if i == id && v
                == version {
                Some(Ok((address, total_size)))
            } else {
                None
            },
        }
    }
}

/// Whether the search for the base of a delta ends at this block.
pub fn search_ends_at(header: &DeltaHeader, block: &BlockScan) -> (b: bool)
    ensures
        b == (block.settles(header.base_component_id, header.base_component_version) is Some),
{
    match block {
        BlockScan::Unavailable => true,
        BlockScan::NoComponent => false,
        BlockScan::Component { id, version, .. } => *id == header.base_component_id && *version
            == header.base_component_version,
    }
}

/// The outcome of the search: what the first block settles that settles anything.
pub open spec fn search(blocks: Seq<BlockScan>, id: u16, version: u32) -> Result<
    (u32, u32),
    MessageError,
>
    decreases blocks.len(),
{
    if blocks.len() == 0 {
        Err(MessageError::DeltaBaseNotFound)
    } else {
        match blocks[0].settles(id, version) {
            Some(outcome) => outcome,
            None => search(blocks.drop_first(), id, version),
        }
    }
}

/// Search the storage blocks for the component whose id and version match the delta header's
/// base.  Returns its flash address and its total size.
pub fn find_base(header: &DeltaHeader, blocks: &[BlockScan]) -> (r: Result<
    (u32, u32),
    MessageError,
>)
    ensures
        r == search(blocks@, header.base_component_id, header.base_component_version),
{
    let mut i: usize = 0;
    assert(blocks@.skip(0) =~= blocks@);
    while i < blocks.len()
        invariant
            i <= blocks@.len(),
            search(blocks@, header.base_component_id, header.base_component_version) == search(
                blocks@.skip(i as int),
                header.base_component_id,
                header.base_component_version,
            ),
        decreases blocks@.len() - i,
    {
        assert(blocks@.skip(i as int).drop_first() =~= blocks@.skip(i + 1));
        match blocks[i] {
            BlockScan::Unavailable => {
                return Err(MessageError::FlashError);
            },
            BlockScan::NoComponent => {},
            BlockScan::Component { address, id, version, total_size } => {
                if id == header.base_component_id && version == header.base_component_version {
                    return Ok((address, total_size));
                }
            },
        }
        i = i + 1;
    }
    Err(MessageError::DeltaBaseNotFound)
}

/// Whether a block ends the search for the component with this id and version: it cannot be
/// looked up, or holds just that component.
pub open spec fn is_decisive(block: BlockScan, id: u16, version: u32) -> bool {
    block is Unavailable || (block is Component && block->id == id && block->version == version)
}

/// What the search comes to: the component that has both the id and the version, if no block
/// before it could not be looked up or holds such a component too; failure, if a block that
/// cannot be looked up comes first; and that there is no base, only if no block is either.
pub proof fn law_search_finds_the_base(blocks: Seq<BlockScan>, id: u16, version: u32)
    ensures
        match search(blocks, id, version) {
            Ok((address, size)) => exists|k: int|
                0 <= k < blocks.len() && #[trigger] blocks[k] == (BlockScan::Component {
                    address,
                    id,
                    version,
                    total_size: size,
                }) && forall|j: int| 0 <= j < k ==> !is_decisive(#[trigger] blocks[j], id, version),
            Err(MessageError::FlashError) => exists|k: int|
                0 <= k < blocks.len() && #[trigger] blocks[k] is Unavailable && forall|j: int|
                    0 <= j < k ==> !is_decisive(#[trigger] blocks[j], id, version),
            Err(e) => e is DeltaBaseNotFound && forall|j: int|
                0 <= j < blocks.len() ==> !is_decisive(#[trigger] blocks[j], id, version),
        },
    decreases blocks.len(),
{
    if blocks.len() > 0 {
        let rest = blocks.drop_first();
        if blocks[0].settles(id, version) is None {
            law_search_finds_the_base(rest, id, version);
            assert(forall|j: int| 0 <= j < rest.len() ==> rest[j] == #[trigger] blocks[j + 1]);
            assert(forall|j: int| 0 < j < blocks.len() ==> #[trigger] blocks[j] == rest[j - 1]);
            match search(rest, id, version) {
                Ok((address, size)) => {
                    let k = choose|k: int|
                        0 <= k < rest.len() && #[trigger] rest[k] == (BlockScan::Component {
                            address,
                            id,
                            version,
                            total_size: size,
                        }) && forall|j: int|
                            0 <= j < k ==> !is_decisive(#[trigger] rest[j], id, version);
                    assert(blocks[k + 1] == rest[k]);
                },
                Err(MessageError::FlashError) => {
                    let k = choose|k: int|
                        0 <= k < rest.len() && #[trigger] rest[k] is Unavailable && forall|j: int|
                            0 <= j < k ==> !is_decisive(#[trigger] rest[j], id, version);
                    assert(blocks[k + 1] == rest[k]);
                },
                Err(_) => {},
            }
        }
    }
}

/// The scan may stop at a block exactly where what comes behind it no longer matters.
pub proof fn law_scan_stops_where_the_search_ends(
    blocks: Seq<BlockScan>,
    more: Seq<BlockScan>,
    id: u16,
    version: u32,
)
    requires
        blocks.len() > 0,
        forall|j: int| 0 <= j < blocks.len() - 1 ==> !is_decisive(#[trigger] blocks[j], id, version),
    ensures
        blocks.last().settles(id, version) is Some <==> is_decisive(blocks.last(), id, version),
        is_decisive(blocks.last(), id, version) ==> search(blocks + more, id, version) == search(
            blocks,
            id,
            version,
        ),
    decreases blocks.len(),
{
    let all = blocks + more;
    assert(all[0] == blocks[0]);
    if blocks.len() == 1 {
        assert(blocks.last() == blocks[0]);
    } else {
        let rest = blocks.drop_first();
        assert(forall|j: int| 0 <= j < rest.len() ==> rest[j] == #[trigger] blocks[j + 1]);
        assert forall|j: int| 0 <= j < rest.len() - 1 implies !is_decisive(
            #[trigger] rest[j],
            id,
            version,
        ) by {
            assert(rest[j] == blocks[j + 1]);
        }
        law_scan_stops_where_the_search_ends(rest, more, id, version);
        assert(all.drop_first() =~= rest + more);
    }
}

// ---------------------------------------------------------------------------
//  Checking the base
// ---------------------------------------------------------------------------

/// Maximum relocation count that the masked CRC check will handle.  Beyond this the check is
/// skipped: it is only an optimization, and the CRC of the reconstructed image still
/// guarantees correctness.
pub const MAX_BASE_RELOCS: usize = 64;

/// Outcome of the optional masked CRC check.  A genuine mismatch is an error instead.
#[derive(Debug, Clone, Copy, PartialEq, Eq, Structural)]
pub enum BaseCheckOutcome {
    /// The CRC ran and matched the one in the delta header.
    Verified,
    /// The base has too many relocations for the check.
    SkippedTooManyRelocs,
}

/// Whether offset `i` lies in one of the 4-byte words that start at the given offsets.
pub open spec fn in_word(words: Seq<u32>, i: int) -> bool {
    exists|k: int| 0 <= k < words.len() && #[trigger] words[k] <= i < words[k] + 4
}

/// `data`, which starts at file offset `from`, with the bytes in the words set to zero.
pub open spec fn words_zeroed(data: Seq<u8>, from: nat, words: Seq<u32>) -> Seq<u8> {
    Seq::new(
        data.len(),
        |i: int|
            if in_word(words, from + i) {
                0u8
            } else {
                data[i]
            },
    )
}

/// Zero the bytes of `chunk` (which starts at file offset `chunk_off`) that fall within the
/// file window `[win_start, win_start + win_len)`.
pub fn zero_window(chunk: &mut Vec<u8>, chunk_off: u32, win_start: u32, win_len: u32)
    ensures
        final(chunk)@.len() == old(chunk)@.len(),
        forall|i: int|
            0 <= i < old(chunk)@.len() ==> #[trigger] final(chunk)@[i] == (if win_start <= chunk_off
                + i < win_start + win_len {
                0u8
            } else {
                old(chunk)@[i]
            }),
{
    let len: usize = chunk.len();
    let lo: u64 = if win_start > chunk_off {
        (win_start - chunk_off) as u64
    } else {
        0
    };
    let win_end: u64 = win_start as u64 + win_len as u64;
    let hi: u64 = if win_end <= chunk_off as u64 {
        0
    } else {
        win_end - chunk_off as u64
    };
    let mut i: usize = 0;
    while i < len
        invariant
            i <= len,
            len == chunk@.len(),
            len == old(chunk)@.len(),
            lo == (if win_start > chunk_off {
                win_start - chunk_off
            } else {
                0
            }),
            hi == (if win_start + win_len <= chunk_off {
                0
            } else {
                win_start + win_len - chunk_off
            }),
            forall|j: int|
                0 <= j < len ==> #[trigger] chunk@[j] == (if j < i && win_start <= chunk_off + j
                    < win_start + win_len {
                    0u8
                } else {
                    old(chunk)@[j]
                }),
        decreases len - i,
    {
        if lo <= i as u64 && (i as u64) < hi {
            chunk.set(i, 0);
        }
        i = i + 1;
    }
}

/// Computes the CRC-32b over the base image in flash with every relocation-site word and the
/// 4-byte trailer zeroed, and compares it with the one in the delta header.
///
/// Zeroing is idempotent, so the words need not be sorted or merged.
pub struct BaseCheck {
    total: u32,
    words: Vec<u32>,
    off: u32,
    crc: Crc32State,
    seen: Ghost<Seq<u8>>,
}

/// The mathematical state of a [`BaseCheck`].
pub struct BaseCheckState {
    /// Size of the base image.
    pub total: u32,
    /// Offsets of the words that count as zero.
    pub words: Seq<u32>,
    /// The part of the base image that has been read.
    pub seen: Seq<u8>,
    /// The running CRC.
    pub crc: u32,
}

impl BaseCheckState {
    /// What every reachable state satisfies.
    pub open spec fn wf(self) -> bool {
        &&& self.seen.len() <= self.total
        &&& self.crc == crc::crc_run(crc::CRC32B_INIT, words_zeroed(self.seen, 0, self.words))
    }

    /// How many bytes are to be read next.
    pub open spec fn next_len(self) -> nat {
        chunk_stream::smaller(
            PACKET_BUFFER_SIZE as nat,
            (self.total - self.seen.len()) as nat,
        )
    }
}

impl View for BaseCheck {
    type V = BaseCheckState;

    closed spec fn view(&self) -> BaseCheckState {
        BaseCheckState {
            total: self.total,
            words: self.words@,
            seen: self.seen@,
            crc: self.crc@,
        }
    }
}

/// The offsets of the words that count as zero: the trailer, then the relocation sites.
pub open spec fn zeroed_words(checksum_offset: u32, relocations: Seq<u32>) -> Seq<u32> {
    seq![checksum_offset] + relocations.map_values(|entry: u32| delta_gen::site_of(entry))
}

impl BaseCheck {
    spec fn counts(self) -> bool {
        self.off == self.seen@.len()
    }

    /// Whether the offsets agree with what has been read.
    pub closed spec fn wf(self) -> bool {
        self@.wf() && self.counts()
    }

    /// A check of a base of `total` bytes, of which nothing has been read; `None` if it has too
    /// many relocations.
    pub fn new(total: u32, checksum_offset: u32, relocations: &[u32]) -> (r: Option<Self>)
        ensures
            r is None <==> relocations@.len() > MAX_BASE_RELOCS,
            r matches Some(c) ==> c.wf() && c@ == (BaseCheckState {
                total,
                words: zeroed_words(checksum_offset, relocations@),
                seen: Seq::empty(),
                crc: crc::CRC32B_INIT,
            }),
    {
        if relocations.len() > MAX_BASE_RELOCS {
            return None;
        }
        let mut words: Vec<u32> = Vec::new();
        words.push(checksum_offset);
        let mut i: usize = 0;
        while i < relocations.len()
            invariant
                i <= relocations@.len(),
                words@ == zeroed_words(checksum_offset, relocations@.take(i as int)),
            decreases relocations@.len() - i,
        {
            words.push(relocation_site(relocations[i]));
            assert(words@ =~= zeroed_words(checksum_offset, relocations@.take(i + 1)));
            i = i + 1;
        }
        assert(relocations@.take(i as int) =~= relocations@);
        proof {
            assert(words_zeroed(Seq::empty(), 0, words@) =~= Seq::<u8>::empty());
        }
        Some(
            BaseCheck {
                total,
                words,
                off: 0,
                crc: Crc32State::new(),
                seen: Ghost(Seq::empty()),
            },
        )
    }

    /// The offset and the length of what is to be read next; `None` when everything has been.
    pub fn next_read(&self) -> (r: Option<(u32, usize)>)
        requires
            self.wf(),
        ensures
            r is None <==> self@.seen.len() == self@.total,
            r matches Some((off, n)) ==> off == self@.seen.len() && n == self@.next_len(),
    {
        if self.off >= self.total {
            return None;
        }
        let left: u32 = self.total - self.off;
        let n: usize = if (left as usize) < PACKET_BUFFER_SIZE {
            left as usize
        } else {
            PACKET_BUFFER_SIZE
        };
        Some((self.off, n))
    }

    /// Takes in what was read.
    pub fn absorb(&mut self, data: &[u8])
        requires
            old(self).wf(),
            data@.len() == old(self)@.next_len(),
        ensures
            final(self).wf(),
            final(self)@.total == old(self)@.total,
            final(self)@.words == old(self)@.words,
            final(self)@.seen == old(self)@.seen + data@,
    {
        let ghost from: nat = self.off as nat;
        let ghost words = self.words@;
        let mut chunk: Vec<u8> = copy_of(data);
        let mut k: usize = 0;
        assert(chunk@ =~= words_zeroed(data@, from, self.words@.take(0)));
        while k < self.words.len()
            invariant
                k <= self.words@.len(),
                self.off == from,
                self.words@ == words,
                self@ == old(self)@,
                self.counts(),
                chunk@ == words_zeroed(data@, from, self.words@.take(k as int)),
            decreases self.words@.len() - k,
        {
            let start: u32 = self.words[k];
            zero_window(&mut chunk, self.off, start, 4);
            proof {
                let before = words.take(k as int);
                let after = words.take(k + 1);
                assert forall|i: int| in_word(after, i) <==> in_word(before, i) || start <= i
                    < start + 4 by {
                    if in_word(before, i) {
                        let j = choose|j: int|
                            0 <= j < before.len() && #[trigger] before[j] <= i < before[j] + 4;
                        assert(after[j] == before[j]);
                    }
                    if start <= i < start + 4 {
                        assert(after[k as int] == start);
                    }
                    if in_word(after, i) {
                        let j = choose|j: int|
                            0 <= j < after.len() && #[trigger] after[j] <= i < after[j] + 4;
                        if j < k {
                            assert(before[j] == after[j]);
                        }
                    }
                }
                assert(chunk@ =~= words_zeroed(data@, from, after));
            }
            k = k + 1;
        }
        assert(self.words@.take(k as int) =~= self.words@);
        proof {
            let seen = self.seen@;
            crc::law_crc_chunks(crc::CRC32B_INIT, words_zeroed(seen, 0, words), chunk@);
            assert(words_zeroed(seen + data@, 0, words) =~= words_zeroed(seen, 0, words) + chunk@);
        }
        self.crc.update(&chunk);
        self.off = self.off + data.len() as u32;
        proof {
            self.seen@ = self.seen@ + data@;
        }
    }

    /// The outcome of the check, once everything has been read.
    pub fn outcome(&self, expected: u32) -> (r: Result<BaseCheckOutcome, MessageError>)
        requires
            self.wf(),
            self@.seen.len() == self@.total,
        ensures
            r == (if crc::crc32_of(words_zeroed(self@.seen, 0, self@.words)) == expected {
                Ok::<BaseCheckOutcome, MessageError>(BaseCheckOutcome::Verified)
            } else {
                Err::<BaseCheckOutcome, MessageError>(MessageError::DeltaBaseCrcMismatch)
            }),
    {
        if self.crc.finalize() != expected {
            return Err(MessageError::DeltaBaseCrcMismatch);
        }
        Ok(BaseCheckOutcome::Verified)
    }
}

/// Where things stand in the base image, as its header says.
#[derive(Debug, Clone, Copy, PartialEq, Eq, Structural)]
pub struct BaseLayout {
    pub total_size: u32,
    pub checksum_offset: u32,
    /// Offset of the relocation table, the size of an entry, and their number.
    pub reloc_offset: u32,
    pub reloc_size: u32,
    pub num_relocations: usize,
}

impl BaseLayout {
    /// Offset of entry `i` of the relocation table.
    pub open spec fn entry_offset(self, i: nat) -> int {
        self.reloc_offset + self.reloc_size * i
    }

    /// Whether the offsets of all the entries that are read fit their field.
    pub open spec fn wf(self) -> bool {
        0 < self.num_relocations <= MAX_BASE_RELOCS ==> self.entry_offset(
            (self.num_relocations - 1) as nat,
        ) <= u32::MAX
    }
}

/// What the verification of a base needs next, or what it has come to.
#[derive(Debug, Clone, Copy, PartialEq, Eq)]
pub enum BaseStep {
    /// Read `len` bytes of the base from `offset` on, and pass them to `accept`.
    Read { offset: u32, len: usize },
    /// The verification is over.
    Finished(Result<BaseCheckOutcome, MessageError>),
}

/// Masked base CRC verification, as a sequence of reads of the base.
///
/// Recomputes the CRC-32b over the base image in flash with every relocation-site word and the
/// 4-byte trailer zeroed, the exact masking that was applied to the pristine base, and
/// compares it with the delta header's `base_crc32`.
pub struct BaseVerification {
    layout: BaseLayout,
    expected: u32,
    entries: Vec<u32>,
    check: Option<BaseCheck>,
}

/// The mathematical state of a [`BaseVerification`].
pub struct VerificationState {
    pub layout: BaseLayout,
    pub expected: u32,
    /// The entries of the relocation table that have been read.
    pub entries: Seq<u32>,
    /// The part of the base image that has been streamed after that.
    pub seen: Seq<u8>,
}

impl VerificationState {
    /// A verification for which nothing has been read.
    pub open spec fn fresh(layout: BaseLayout, expected: u32) -> Self {
        VerificationState { layout, expected, entries: Seq::empty(), seen: Seq::empty() }
    }

    /// Whether the base has more relocations than the check handles.
    pub open spec fn too_many(self) -> bool {
        self.layout.num_relocations > MAX_BASE_RELOCS
    }

    /// Whether the whole relocation table has been read.
    pub open spec fn table_read(self) -> bool {
        self.entries.len() >= self.layout.num_relocations
    }

    /// What is needed next, or what the verification has come to.
    pub open spec fn step(self) -> BaseStep {
        if self.too_many() {
            BaseStep::Finished(Ok(BaseCheckOutcome::SkippedTooManyRelocs))
        } else if !self.table_read() {
            BaseStep::Read { offset: self.layout.entry_offset(self.entries.len()) as u32, len: 4 }
        } else if self.seen.len() < self.layout.total_size {
            BaseStep::Read {
                offset: self.seen.len() as u32,
                len: chunk_stream::smaller(
                    PACKET_BUFFER_SIZE as nat,
                    (self.layout.total_size - self.seen.len()) as nat,
                ) as usize,
            }
        } else if crc::crc32_of(
            words_zeroed(
                self.seen,
                0,
                zeroed_words(self.layout.checksum_offset, self.entries),
            ),
        ) == self.expected {
            BaseStep::Finished(Ok(BaseCheckOutcome::Verified))
        } else {
            BaseStep::Finished(Err(MessageError::DeltaBaseCrcMismatch))
        }
    }

    /// What the verification comes to when all that is read is read from `base`; reading what is
    /// not there is an error.
    pub open spec fn comes_to(self, base: Seq<u8>) -> Result<BaseCheckOutcome, MessageError>
        decreases
            self.layout.num_relocations - self.entries.len(),
            self.layout.total_size - self.seen.len(),
    {
        match self.step() {
            BaseStep::Finished(outcome) => outcome,
            BaseStep::Read { offset, len } => if offset + len > base.len() {
                Err(MessageError::FlashError)
            } else {
                self.after(base.subrange(offset as int, offset + len)).comes_to(base)
            },
        }
    }

    /// The state after `data` has been read.
    pub open spec fn after(self, data: Seq<u8>) -> Self {
        if !self.table_read() {
            VerificationState { entries: self.entries.push(le::u32_at(data, 0)), ..self }
        } else {
            VerificationState { seen: self.seen + data, ..self }
        }
    }
}

impl View for BaseVerification {
    type V = VerificationState;

    closed spec fn view(&self) -> VerificationState {
        VerificationState {
            layout: self.layout,
            expected: self.expected,
            entries: self.entries@,
            seen: match self.check {
                Some(check) => check@.seen,
                None => Seq::empty(),
            },
        }
    }
}

impl BaseVerification {
    /// What every reachable state satisfies.
    pub closed spec fn wf(self) -> bool {
        &&& self.layout.wf()
        &&& match self.check {
            None => self.layout.num_relocations > MAX_BASE_RELOCS || self.entries@.len()
                < self.layout.num_relocations,
            Some(check) => {
                &&& check.wf()
                &&& self.layout.num_relocations <= MAX_BASE_RELOCS
                &&& self.entries@.len() == self.layout.num_relocations
                &&& check@.total == self.layout.total_size
                &&& check@.words == zeroed_words(self.layout.checksum_offset, self.entries@)
            },
        }
    }

    /// The verification of a base against the CRC in the delta header.
    pub fn new(layout: BaseLayout, expected: u32) -> (v: Self)
        requires
            layout.wf(),
        ensures
            v.wf(),
            v@ == VerificationState::fresh(layout, expected),
    {
        let entries: Vec<u32> = Vec::new();
        let check: Option<BaseCheck> = if layout.num_relocations == 0 {
            BaseCheck::new(layout.total_size, layout.checksum_offset, &entries)
        } else {
            None
        };
        BaseVerification { layout, expected, entries, check }
    }

    /// What is needed next, or what the verification has come to.
    pub fn step(&self) -> (s: BaseStep)
        requires
            self.wf(),
        ensures
            s == self@.step(),
    {
        if self.layout.num_relocations > MAX_BASE_RELOCS {
            return BaseStep::Finished(Ok(BaseCheckOutcome::SkippedTooManyRelocs));
        }
        match &self.check {
            None => {
                let i: u32 = self.entries.len() as u32;
                proof {
                    lemma_entry_offset(self.layout, self.entries@.len());
                }
                BaseStep::Read {
                    offset: self.layout.reloc_offset + self.layout.reloc_size * i,
                    len: 4,
                }
            },
            Some(check) => match check.next_read() {
                Some((offset, len)) => BaseStep::Read { offset, len },
                None => BaseStep::Finished(check.outcome(self.expected)),
            },
        }
    }

    /// Takes in the bytes that were asked for.
    pub fn accept(&mut self, data: &[u8])
        requires
            old(self).wf(),
            old(self)@.step() matches BaseStep::Read { len, .. } && data@.len() == len,
        ensures
            final(self).wf(),
            final(self)@ == old(self)@.after(data@),
    {
        if self.entries.len() < self.layout.num_relocations {
            self.entries.push(le::u32_le(data, 0));
            if self.entries.len() == self.layout.num_relocations {
                self.check =
                BaseCheck::new(
                    self.layout.total_size,
                    self.layout.checksum_offset,
                    &self.entries,
                );
            }
        } else if let Some(check) = &mut self.check {
            check.absorb(data);
        }
    }
}

/// The offsets of the entries fit their field, one and all.
proof fn lemma_entry_offset(layout: BaseLayout, i: nat)
    requires
        layout.wf(),
        i < layout.num_relocations <= MAX_BASE_RELOCS,
    ensures
        0 <= layout.reloc_size * i <= layout.entry_offset(i) <= u32::MAX,
{
    let size = layout.reloc_size as int;
    let last = layout.num_relocations - 1;
    assert(0 <= size * i <= size * last) by (nonlinear_arith)
        requires
            0 <= i <= last,
            0 <= size,
    ;
}

// ---------------------------------------------------------------------------
//  Laws
// ---------------------------------------------------------------------------

/// The words that the device zeroes are the bytes that the builder masks.
pub proof fn law_device_mask_is_builder_mask(data: Seq<u8>, facts: delta_gen::BaseFacts)
    requires
        facts.trailer_start + 4 <= usize::MAX,
        facts.trailer_start <= u32::MAX,
        ranges::first_past(
            delta_gen::unreliable_words(facts.relocations@, facts.trailer_start),
            data.len(),
        ) is None,
    ensures
        words_zeroed(data, 0, zeroed_words(facts.trailer_start as u32, facts.relocations@))
            == delta_gen::masked(data, delta_gen::forbidden_ranges(facts)),
{
    let relocations = facts.relocations@;
    let words = zeroed_words(facts.trailer_start as u32, relocations);
    let listed = delta_gen::unreliable_words(relocations, facts.trailer_start);
    assert forall|k: int| 0 <= k < listed.len() implies (#[trigger] listed[k]).end
        == listed[k].start + 4 && listed[k].start == words[if k < relocations.len() {
        k + 1
    } else {
        0
    }] by {
        if k < relocations.len() {
            let entry = relocations[k];
            assert(entry & delta_gen::SITE_MASK <= delta_gen::SITE_MASK) by (bit_vector);
            assert(words[k + 1] == delta_gen::site_of(entry));
        } else {
            assert(words[0] == facts.trailer_start);
        }
    }
    ranges::lemma_none_past(listed, data.len());
    ranges::law_normal_form(listed, data.len());
    let normal = delta_gen::forbidden_ranges(facts);
    assert forall|i: int| 0 <= i < data.len() implies (in_word(words, i) <==> encoder::covered(
        normal,
        i,
    )) by {
        assert(encoder::covered(normal, i) <==> encoder::covered(listed, i));
        if in_word(words, i) {
            let k = choose|k: int| 0 <= k < words.len() && #[trigger] words[k] <= i < words[k] + 4;
            if k == 0 {
                assert(listed[relocations.len() as int].start == words[0]);
            } else {
                assert(listed[k - 1].start == words[k]);
            }
        }
        if encoder::covered(listed, i) {
            let k = choose|k: int|
                0 <= k < listed.len() && (#[trigger] listed[k]).start <= i < listed[k].end;
            if k < relocations.len() {
                assert(words[k + 1] <= i < words[k + 1] + 4);
            } else {
                assert(words[0] <= i < words[0] + 4);
            }
        }
    }
    assert(words_zeroed(data, 0, words) =~= delta_gen::masked(data, normal));
}

/// The bytes that the device counts as zero are those of the words at the sites of the
/// relocation entries, that is at the entries modulo 2^24, and those of the trailer.
pub proof fn law_device_zeroes_sites_and_trailer(
    checksum_offset: u32,
    relocations: Seq<u32>,
    i: int,
)
    ensures
        in_word(zeroed_words(checksum_offset, relocations), i) <==> checksum_offset <= i
            < checksum_offset + 4 || delta_gen::in_relocated_word(relocations, i),
{
    let words = zeroed_words(checksum_offset, relocations);
    if in_word(words, i) {
        let k = choose|k: int| 0 <= k < words.len() && #[trigger] words[k] <= i < words[k] + 4;
        if k > 0 {
            delta_gen::law_site_is_low_24_bits(relocations[k - 1]);
            assert(relocations[k - 1] % 0x100_0000 == words[k]);
        }
    }
    if checksum_offset <= i < checksum_offset + 4 {
        assert(words[0] == checksum_offset);
    }
    if delta_gen::in_relocated_word(relocations, i) {
        let k = choose|k: int|
            0 <= k < relocations.len() && (#[trigger] relocations[k]) % 0x100_0000 <= i
                < relocations[k] % 0x100_0000 + 4;
        delta_gen::law_site_is_low_24_bits(relocations[k]);
        assert(words[k + 1] == relocations[k] % 0x100_0000);
    }
}

/// Images that agree outside the ranges are the same once masked.
pub proof fn law_mask_hides_ranges(a: Seq<u8>, b: Seq<u8>, forbidden: Seq<Range<usize>>)
    requires
        roundtrip::agrees_outside(a, b, forbidden),
    ensures
        delta_gen::masked(a, forbidden) == delta_gen::masked(b, forbidden),
{
    assert(delta_gen::masked(a, forbidden) =~= delta_gen::masked(b, forbidden));
}

/// The check accepts the right base: whatever relocation has made of the unreliable words of
/// `old` on the device, the CRC there is the one in the header that was built for `old`.
pub proof fn law_right_base_verifies(
    base: Seq<u8>,
    old: Seq<u8>,
    facts: delta_gen::BaseFacts,
    header: DeltaHeader,
    new: Seq<u8>,
    patch: Seq<u8>,
)
    requires
        facts.trailer_start + 4 <= usize::MAX,
        facts.trailer_start <= u32::MAX,
        ranges::first_past(
            delta_gen::unreliable_words(facts.relocations@, facts.trailer_start),
            old.len(),
        ) is None,
        roundtrip::agrees_outside(base, old, delta_gen::forbidden_ranges(facts)),
        delta_gen::is_header_for(
            header,
            old,
            new,
            facts,
            delta_gen::forbidden_ranges(facts),
            patch,
        ),
    ensures
        crc::crc32_of(
            words_zeroed(base, 0, zeroed_words(facts.trailer_start as u32, facts.relocations@)),
        ) == header.base_crc32,
{
    law_device_mask_is_builder_mask(base, facts);
    law_mask_hides_ranges(base, old, delta_gen::forbidden_ranges(facts));
}

/// Whether `base` is laid out as `layout` says, and holds the relocation entries and the trailer
/// that the builder knows of.
pub open spec fn laid_out(base: Seq<u8>, layout: BaseLayout, facts: delta_gen::BaseFacts) -> bool {
    &&& layout.wf()
    &&& layout.total_size == base.len()
    &&& layout.checksum_offset == facts.trailer_start
    &&& layout.num_relocations == facts.relocations@.len()
    &&& forall|i: int|
        0 <= i < facts.relocations@.len() ==> layout.entry_offset(i as nat) + 4 <= base.len()
            && le::u32_at(base, layout.entry_offset(i as nat)) == #[trigger] facts.relocations@[i]
}

/// A verification under way, on a base that holds the entries, comes to the comparison of the
/// CRC over the whole base with the expected one.
proof fn lemma_verification(
    s: VerificationState,
    base: Seq<u8>,
    facts: delta_gen::BaseFacts,
)
    requires
        laid_out(base, s.layout, facts),
        s.layout.num_relocations <= MAX_BASE_RELOCS,
        s.entries.len() <= facts.relocations@.len(),
        s.entries == facts.relocations@.take(s.entries.len() as int),
        s.seen.len() <= base.len(),
        s.seen == base.take(s.seen.len() as int),
        s.entries.len() < facts.relocations@.len() ==> s.seen.len() == 0,
    ensures
        s.comes_to(base) == (if crc::crc32_of(
            words_zeroed(
                base,
                0,
                zeroed_words(s.layout.checksum_offset, facts.relocations@),
            ),
        ) == s.expected {
            Ok::<BaseCheckOutcome, MessageError>(BaseCheckOutcome::Verified)
        } else {
            Err::<BaseCheckOutcome, MessageError>(MessageError::DeltaBaseCrcMismatch)
        }),
    decreases
        s.layout.num_relocations - s.entries.len(),
        s.layout.total_size - s.seen.len(),
{
    let n = s.entries.len();
    if !s.table_read() {
        let entry = facts.relocations@[n as int];
        let at = s.layout.entry_offset(n);
        lemma_entry_offset(s.layout, n);
        let data = base.subrange(at, at + 4);
        assert(le::u32_at(data, 0) == le::u32_at(base, at));
        let t = s.after(data);
        assert(t.entries =~= facts.relocations@.take(n as int + 1));
        lemma_verification(t, base, facts);
    } else if s.seen.len() < s.layout.total_size {
        let from = s.seen.len() as int;
        let len = chunk_stream::smaller(
            PACKET_BUFFER_SIZE as nat,
            (s.layout.total_size - from) as nat,
        ) as int;
        let t = s.after(base.subrange(from, from + len));
        assert(t.seen =~= base.take(from + len));
        lemma_verification(t, base, facts);
    } else {
        assert(s.entries =~= facts.relocations@);
        assert(s.seen =~= base);
    }
}

/// The device verifies the right base: a verification that reads everything from flash, where
/// `old` stands with anything in place of the words that relocation and installation rewrite,
/// ends in success; with more relocations than the check handles it is skipped.
pub proof fn law_verification_accepts_the_right_base(
    base: Seq<u8>,
    layout: BaseLayout,
    old: Seq<u8>,
    facts: delta_gen::BaseFacts,
    header: DeltaHeader,
    new: Seq<u8>,
    patch: Seq<u8>,
)
    requires
        facts.trailer_start + 4 <= usize::MAX,
        ranges::first_past(
            delta_gen::unreliable_words(facts.relocations@, facts.trailer_start),
            old.len(),
        ) is None,
        roundtrip::agrees_outside(base, old, delta_gen::forbidden_ranges(facts)),
        delta_gen::is_header_for(
            header,
            old,
            new,
            facts,
            delta_gen::forbidden_ranges(facts),
            patch,
        ),
        laid_out(base, layout, facts),
    ensures
        VerificationState::fresh(layout, header.base_crc32).comes_to(base) == Ok::<
            BaseCheckOutcome,
            MessageError,
        >(
            if layout.num_relocations > MAX_BASE_RELOCS {
                BaseCheckOutcome::SkippedTooManyRelocs
            } else {
                BaseCheckOutcome::Verified
            },
        ),
{
    let s = VerificationState::fresh(layout, header.base_crc32);
    if layout.num_relocations <= MAX_BASE_RELOCS {
        law_right_base_verifies(base, old, facts, header, new, patch);
        assert(facts.relocations@.take(0) =~= Seq::<u32>::empty());
        assert(base.take(0) =~= Seq::<u8>::empty());
        lemma_verification(s, base, facts);
    }
}

/// What is read, and in what order: first the entries of the relocation table, four bytes of each,
/// every `reloc_size` bytes from its offset on; then the whole base from its first byte to its
/// last, in pieces of at most 64 bytes, of which only the last may be shorter.  A base with more
/// than 64 relocations is not read at all.
pub proof fn law_what_is_read_of_the_base(s: VerificationState)
    requires
        s.layout.wf(),
        s.entries.len() <= s.layout.num_relocations,
    ensures
        match s.step() {
            BaseStep::Read { offset, len } => {
                let n = s.entries.len();
                &&& s.layout.num_relocations <= 64
                &&& n < s.layout.num_relocations ==> len == 4 && offset == s.layout.reloc_offset + n
                    * s.layout.reloc_size
                &&& n >= s.layout.num_relocations ==> {
                    &&& offset == s.seen.len()
                    &&& 0 < len <= 64
                    &&& offset + len <= s.layout.total_size
                    &&& len < 64 ==> offset + len == s.layout.total_size
                }
            },
            BaseStep::Finished(Ok(BaseCheckOutcome::SkippedTooManyRelocs)) =>
                s.layout.num_relocations > 64,
            BaseStep::Finished(_) => s.layout.num_relocations <= 64 && s.entries.len()
                == s.layout.num_relocations && s.seen.len() >= s.layout.total_size,
        },
{
    if s.layout.num_relocations <= 64 && !s.table_read() {
        lemma_entry_offset(s.layout, s.entries.len());
        let (size, n) = (s.layout.reloc_size as int, s.entries.len() as int);
        assert(size * n == n * size) by (nonlinear_arith);
    }
}

/// A wrong base is refused: if it differs from the right one in a single byte, and that byte is
/// neither in a relocated word nor in the trailer, the verification ends in a mismatch.
pub proof fn law_verification_refuses_a_wrong_base(
    base: Seq<u8>,
    layout: BaseLayout,
    facts: delta_gen::BaseFacts,
    at: int,
    b: u8,
)
    requires
        laid_out(base, layout, facts),
        laid_out(base.update(at, b), layout, facts),
        layout.num_relocations <= 64,
        0 <= at < base.len(),
        base[at] != b,
        !(layout.checksum_offset <= at < layout.checksum_offset + 4),
        !delta_gen::in_relocated_word(facts.relocations@, at),
    ensures
        ({
            let words = zeroed_words(layout.checksum_offset, facts.relocations@);
            let expected = crc::crc32_of(words_zeroed(base, 0, words));
            VerificationState::fresh(layout, expected).comes_to(base.update(at, b)) == Err::<
                BaseCheckOutcome,
                MessageError,
            >(MessageError::DeltaBaseCrcMismatch)
        }),
{
    let words = zeroed_words(layout.checksum_offset, facts.relocations@);
    let right = words_zeroed(base, 0, words);
    let other = base.update(at, b);
    let s = VerificationState::fresh(layout, crc::crc32_of(right));
    assert(facts.relocations@.take(0) =~= Seq::<u32>::empty());
    assert(other.take(0) =~= Seq::<u8>::empty());
    lemma_verification(s, other, facts);
    law_device_zeroes_sites_and_trailer(layout.checksum_offset, facts.relocations@, at);
    assert(words_zeroed(other, 0, words) =~= right.update(at, b));
    crc::law_crc_detects_byte_change(right, at, b);
}

/// The bytes that count as zero are those in the words, and no others; the rest stay.
pub proof fn law_zeroed_bytes(data: Seq<u8>, from: nat, words: Seq<u32>, i: int)
    requires
        0 <= i < data.len(),
    ensures
        words_zeroed(data, from, words).len() == data.len(),
        forall|k: int|
            0 <= k < words.len() && (#[trigger] words[k]) <= from + i < words[k] + 4
                ==> words_zeroed(data, from, words)[i] == 0,
        (forall|k: int|
            0 <= k < words.len() ==> (#[trigger] words[k]) + 4 <= from + i || from + i < words[k])
            ==> words_zeroed(data, from, words)[i] == data[i],
{
}

} // verus!

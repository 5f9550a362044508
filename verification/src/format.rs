//! Delta wire format: opcode tags and the fixed delta header.

use vstd::prelude::*;

use crate::le;

pub use crate::crc::{crc32b, Crc32State};

verus! {

/// Delta header magic bytes: `'D','E','L','T'` (0x544C4544 little-endian).
pub const DELTA_MAGIC: [u8; 4] = [0x44, 0x45, 0x4C, 0x54];

/// Size of the delta header in bytes (fixed, multiple of 4).
pub const DELTA_HEADER_SIZE: usize = 32;

/// The only format version understood by this decoder.
pub const DELTA_FORMAT_V1: u16 = 1;

/// Algorithm ID for the COPY/ADD/END opcode set.
pub const ALGO_COPY_ADD_V1: u16 = 0x0001;

/// COPY opcode tag.  Total wire size: 9 bytes (tag + src_offset:u32 + len:u32).
pub const OP_COPY: u8 = 0x01;

/// ADD opcode tag.  Total wire size: 5 + N bytes (tag + len:u32 + data[N]).
pub const OP_ADD: u8 = 0x02;

/// END sentinel tag.  Total wire size: 1 byte.
pub const OP_END: u8 = 0x03;

/// Maximum opcode header size in bytes (COPY = 1 + 4 + 4 = 9).
pub const MAX_OPCODE_HEADER: usize = 9;

// ---------------------------------------------------------------------------
//  Delta header
// ---------------------------------------------------------------------------

/// The 32-byte delta header placed immediately after the fixed component header (at the
/// position where the payload would normally begin).
///
/// All multi-byte fields are little-endian on the wire.
#[derive(Clone, Copy, Debug, PartialEq, Eq)]
pub struct DeltaHeader {
    pub magic: [u8; 4],
    pub format_version: u16,
    pub algorithm_id: u16,
    pub base_component_id: u16,
    pub base_component_version: u32,
    pub reserved: u16,
    pub base_crc32: u32,
    pub reconstructed_crc32: u32,
    pub patch_payload_size: u32,
    /// Total size of the reconstructed (target) image in bytes.
    pub target_size: u32,
}

impl DeltaHeader {
    /// The 32 wire bytes of this header: the fields in declaration order.
    pub open spec fn wire(self) -> Seq<u8> {
        self.magic@ + le::u16_bytes(self.format_version) + le::u16_bytes(self.algorithm_id) + le::u16_bytes(
            self.base_component_id,
        ) + le::u32_bytes(self.base_component_version) + le::u16_bytes(self.reserved) + le::u32_bytes(
            self.base_crc32,
        ) + le::u32_bytes(self.reconstructed_crc32) + le::u32_bytes(self.patch_payload_size) + le::u32_bytes(
            self.target_size,
        )
    }

    /// Whether the fields of this header are those stored at their offsets in `b`.
    pub open spec fn stored_in(self, b: Seq<u8>) -> bool {
        &&& self.magic@ == b.subrange(0, 4)
        &&& self.format_version == le::u16_at(b, 4)
        &&& self.algorithm_id == le::u16_at(b, 6)
        &&& self.base_component_id == le::u16_at(b, 8)
        &&& self.base_component_version == le::u32_at(b, 10)
        &&& self.reserved == le::u16_at(b, 14)
        &&& self.base_crc32 == le::u32_at(b, 16)
        &&& self.reconstructed_crc32 == le::u32_at(b, 20)
        &&& self.patch_payload_size == le::u32_at(b, 24)
        &&& self.target_size == le::u32_at(b, 28)
    }

    /// Whether the structural fields carry the values of the current format.
    pub open spec fn is_valid(self) -> bool {
        &&& self.magic@ == DELTA_MAGIC@
        &&& self.format_version == DELTA_FORMAT_V1
        &&& self.algorithm_id == ALGO_COPY_ADD_V1
        &&& self.reserved == 0
    }

    /// Parse a `DeltaHeader` from a 32-byte little-endian buffer.
    ///
    /// Returns `None` if `buf.len() < DELTA_HEADER_SIZE`.
    pub fn from_bytes(buf: &[u8]) -> (r: Option<Self>)
        ensures
            r is None <==> buf@.len() < DELTA_HEADER_SIZE,
            r matches Some(h) ==> h.stored_in(buf@),
    {
        if buf.len() < DELTA_HEADER_SIZE {
            return None;
        }
        let magic: [u8; 4] = [buf[0], buf[1], buf[2], buf[3]];
        assert(magic@ =~= buf@.subrange(0, 4));
        Some(
            DeltaHeader {
                magic,
                format_version: le::u16_le(buf, 4),
                algorithm_id: le::u16_le(buf, 6),
                base_component_id: le::u16_le(buf, 8),
                base_component_version: le::u32_le(buf, 10),
                reserved: le::u16_le(buf, 14),
                base_crc32: le::u32_le(buf, 16),
                reconstructed_crc32: le::u32_le(buf, 20),
                patch_payload_size: le::u32_le(buf, 24),
                target_size: le::u32_le(buf, 28),
            },
        )
    }

    /// Serialize this header into a 32-byte little-endian buffer.
    pub fn to_bytes(&self) -> (out: [u8; DELTA_HEADER_SIZE])
        ensures
            out@ == self.wire(),
    {
        let out: [u8; DELTA_HEADER_SIZE] = [
            self.magic[0],
            self.magic[1],
            self.magic[2],
            self.magic[3],
            (self.format_version % 0x100) as u8,
            (self.format_version / 0x100) as u8,
            (self.algorithm_id % 0x100) as u8,
            (self.algorithm_id / 0x100) as u8,
            (self.base_component_id % 0x100) as u8,
            (self.base_component_id / 0x100) as u8,
            (self.base_component_version % 0x100) as u8,
            (self.base_component_version / 0x100 % 0x100) as u8,
            (self.base_component_version / 0x1_0000 % 0x100) as u8,
            (self.base_component_version / 0x100_0000) as u8,
            (self.reserved % 0x100) as u8,
            (self.reserved / 0x100) as u8,
            (self.base_crc32 % 0x100) as u8,
            (self.base_crc32 / 0x100 % 0x100) as u8,
            (self.base_crc32 / 0x1_0000 % 0x100) as u8,
            (self.base_crc32 / 0x100_0000) as u8,
            (self.reconstructed_crc32 % 0x100) as u8,
            (self.reconstructed_crc32 / 0x100 % 0x100) as u8,
            (self.reconstructed_crc32 / 0x1_0000 % 0x100) as u8,
            (self.reconstructed_crc32 / 0x100_0000) as u8,
            (self.patch_payload_size % 0x100) as u8,
            (self.patch_payload_size / 0x100 % 0x100) as u8,
            (self.patch_payload_size / 0x1_0000 % 0x100) as u8,
            (self.patch_payload_size / 0x100_0000) as u8,
            (self.target_size % 0x100) as u8,
            (self.target_size / 0x100 % 0x100) as u8,
            (self.target_size / 0x1_0000 % 0x100) as u8,
            (self.target_size / 0x100_0000) as u8,
        ];
        assert(out@ =~= self.wire());
        out
    }

    /// Validate the structural fields of this header (magic, version, algorithm, reserved).
    /// Does NOT verify CRC values: those require access to the base and new images.
    pub fn validate(&self) -> (ok: bool)
        ensures
            ok == self.is_valid(),
    {
        let magic: [u8; 4] = DELTA_MAGIC;
        let same: bool = self.magic[0] == magic[0] && self.magic[1] == magic[1] && self.magic[2]
            == magic[2] && self.magic[3] == magic[3];
        assert(same == (self.magic@ =~= DELTA_MAGIC@));
        same && self.format_version == DELTA_FORMAT_V1 && self.algorithm_id == ALGO_COPY_ADD_V1
            && self.reserved == 0
    }
}

/// Whether the delta header magic stands at `image[at..at + 4]`.
pub open spec fn magic_at(image: Seq<u8>, at: int) -> bool {
    0 <= at && at + 4 <= image.len() && image.subrange(at, at + 4) == DELTA_MAGIC@
}

/// Finds the first place where the delta header magic stands.
pub fn find_delta_header(image: &[u8]) -> (at: Option<usize>)
    ensures
        match at {
            Some(i) => magic_at(image@, i as int) && forall|j: int|
                0 <= j < i ==> !#[trigger] magic_at(image@, j),
            None => forall|j: int| !#[trigger] magic_at(image@, j),
        },
{
    let magic: [u8; 4] = DELTA_MAGIC;
    let len: usize = image.len();
    let mut i: usize = 0;
    while i < len && len - i >= 4
        invariant
            i <= len,
            len == image@.len(),
            magic@ == DELTA_MAGIC@,
            forall|j: int| 0 <= j < i ==> !#[trigger] magic_at(image@, j),
        decreases len - i,
    {
        let found: bool = image[i] == magic[0] && image[i + 1] == magic[1] && image[i + 2]
            == magic[2] && image[i + 3] == magic[3];
        assert(found == (image@.subrange(i as int, i + 4) =~= DELTA_MAGIC@));
        if found {
            return Some(i);
        }
        i = i + 1;
    }
    None
}

/// Parsing the wire bytes of a header, followed by anything, gives back that header.
pub proof fn law_header_write_read(h: DeltaHeader, rest: Seq<u8>)
    ensures
        h.stored_in(h.wire() + rest),
{
    let b = h.wire() + rest;
    assert(b.subrange(0, 4) =~= h.magic@);
    assert(b.subrange(4, 6) =~= le::u16_bytes(h.format_version));
    assert(b.subrange(6, 8) =~= le::u16_bytes(h.algorithm_id));
    assert(b.subrange(8, 10) =~= le::u16_bytes(h.base_component_id));
    assert(b.subrange(10, 14) =~= le::u32_bytes(h.base_component_version));
    assert(b.subrange(14, 16) =~= le::u16_bytes(h.reserved));
    assert(b.subrange(16, 20) =~= le::u32_bytes(h.base_crc32));
    assert(b.subrange(20, 24) =~= le::u32_bytes(h.reconstructed_crc32));
    assert(b.subrange(24, 28) =~= le::u32_bytes(h.patch_payload_size));
    assert(b.subrange(28, 32) =~= le::u32_bytes(h.target_size));
    le::lemma_u16_write_read(b, 4, h.format_version);
    le::lemma_u16_write_read(b, 6, h.algorithm_id);
    le::lemma_u16_write_read(b, 8, h.base_component_id);
    le::lemma_u32_write_read(b, 10, h.base_component_version);
    le::lemma_u16_write_read(b, 14, h.reserved);
    le::lemma_u32_write_read(b, 16, h.base_crc32);
    le::lemma_u32_write_read(b, 20, h.reconstructed_crc32);
    le::lemma_u32_write_read(b, 24, h.patch_payload_size);
    le::lemma_u32_write_read(b, 28, h.target_size);
}

/// Serializing a header that was parsed from a buffer gives back the buffer's first 32 bytes.
pub proof fn law_header_read_write(h: DeltaHeader, b: Seq<u8>)
    requires
        b.len() >= DELTA_HEADER_SIZE,
        h.stored_in(b),
    ensures
        h.wire() == b.subrange(0, DELTA_HEADER_SIZE as int),
{
    le::lemma_u16_read_write(b, 4);
    le::lemma_u16_read_write(b, 6);
    le::lemma_u16_read_write(b, 8);
    le::lemma_u32_read_write(b, 10);
    le::lemma_u16_read_write(b, 14);
    le::lemma_u32_read_write(b, 16);
    le::lemma_u32_read_write(b, 20);
    le::lemma_u32_read_write(b, 24);
    le::lemma_u32_read_write(b, 28);
    assert(h.wire() =~= b.subrange(0, DELTA_HEADER_SIZE as int));
}

/// Where each field of a header stands among its 32 bytes, lowest byte first.
pub proof fn law_header_layout(h: DeltaHeader)
    ensures
        ({
            let b = h.wire();
            &&& b.len() == 32
            &&& h.magic@ == seq![b[0], b[1], b[2], b[3]]
            &&& h.format_version == b[4] + 256 * b[5]
            &&& h.algorithm_id == b[6] + 256 * b[7]
            &&& h.base_component_id == b[8] + 256 * b[9]
            &&& h.base_component_version == b[10] + 256 * b[11] + 65536 * b[12] + 16777216 * b[13]
            &&& h.reserved == b[14] + 256 * b[15]
            &&& h.base_crc32 == b[16] + 256 * b[17] + 65536 * b[18] + 16777216 * b[19]
            &&& h.reconstructed_crc32 == b[20] + 256 * b[21] + 65536 * b[22] + 16777216 * b[23]
            &&& h.patch_payload_size == b[24] + 256 * b[25] + 65536 * b[26] + 16777216 * b[27]
            &&& h.target_size == b[28] + 256 * b[29] + 65536 * b[30] + 16777216 * b[31]
        }),
{
    law_header_write_read(h, Seq::empty());
    assert(h.wire() + Seq::<u8>::empty() =~= h.wire());
    assert(h.wire().subrange(0, 4) =~= seq![
        h.wire()[0],
        h.wire()[1],
        h.wire()[2],
        h.wire()[3],
    ]);
}

/// A header is valid if its bytes say `DELT`, version 1, algorithm 1, and zero in the reserved
/// field, whatever stands in the other fields; and only then.
pub proof fn law_valid_headers(h: DeltaHeader)
    ensures
        h.is_valid() <==> {
            let b = h.wire();
            &&& b[0] == 0x44 && b[1] == 0x45 && b[2] == 0x4C && b[3] == 0x54
            &&& b[4] == 1 && b[5] == 0
            &&& b[6] == 1 && b[7] == 0
            &&& b[14] == 0 && b[15] == 0
        },
{
    law_header_layout(h);
    let b = h.wire();
    assert(DELTA_MAGIC@ =~= seq![0x44u8, 0x45u8, 0x4Cu8, 0x54u8]);
    if b[0] == 0x44 && b[1] == 0x45 && b[2] == 0x4C && b[3] == 0x54 {
        assert(h.magic@ =~= DELTA_MAGIC@);
    }
}

/// The magic stands where four bytes in a row say `DELT`, wherever that is in an image.
pub proof fn law_magic_is_four_bytes(image: Seq<u8>, at: int)
    ensures
        magic_at(image, at) <==> 0 <= at && at + 4 <= image.len() && image[at] == 0x44 && image[at
            + 1] == 0x45 && image[at + 2] == 0x4C && image[at + 3] == 0x54,
{
    assert(DELTA_MAGIC@ =~= seq![0x44u8, 0x45u8, 0x4Cu8, 0x54u8]);
    if 0 <= at && at + 4 <= image.len() {
        let here = image.subrange(at, at + 4);
        assert(here[0] == image[at] && here[1] == image[at + 1] && here[2] == image[at + 2]
            && here[3] == image[at + 3]);
        if image[at] == 0x44 && image[at + 1] == 0x45 && image[at + 2] == 0x4C && image[at + 3]
            == 0x54 {
            assert(here =~= DELTA_MAGIC@);
        }
    }
}

} // verus!

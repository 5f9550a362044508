//! The device's side of a delta update.

use delta_patcher::base_check::{
    find_base, parse_delta_header, search_ends_at, zero_window, BaseCheck, BaseCheckOutcome,
    BaseLayout, BaseStep, BaseVerification, BlockScan,
};
use delta_patcher::chunk_stream::{ChunkStream, Demand, PatchReader};
use delta_patcher::delta_gen::masked_crc32;
use delta_patcher::message::MessageError;
use delta_patcher::reconstruct::{
    payload_address, Action, Failure, PrefixInfo, Reconstruction, Stage,
};
use delta_patcher::update::{Course, Phase};
use delta_patcher::{
    crc32b, encode, DeltaHeader, ALGO_COPY_ADD_V1, DELTA_FORMAT_V1, DELTA_MAGIC,
};

const PREFIX: usize = 20;

/// An image with the XOR of its words as its trailer.
fn image(seed: u8, len: usize) -> Vec<u8> {
    let mut v: Vec<u8> = (0..len - 4).map(|i| (i as u8).wrapping_mul(7).wrapping_add(seed)).collect();
    let checksum = xor_words(&v);
    v.extend_from_slice(&checksum.to_le_bytes());
    v
}

fn xor_words(data: &[u8]) -> u32 {
    data.chunks(4).fold(0, |sum, word| {
        let mut bytes = [0u8; 4];
        bytes[..word.len()].copy_from_slice(word);
        sum ^ u32::from_le_bytes(bytes)
    })
}

fn header(patch: &[u8], new: &[u8]) -> DeltaHeader {
    DeltaHeader {
        magic: DELTA_MAGIC,
        format_version: DELTA_FORMAT_V1,
        algorithm_id: ALGO_COPY_ADD_V1,
        base_component_id: 3,
        base_component_version: 7,
        reserved: 0,
        base_crc32: 0,
        reconstructed_crc32: crc32b(new),
        patch_payload_size: patch.len() as u32,
        target_size: new.len() as u32,
    }
}

/// A device in memory: what it holds, and what goes wrong with it.
struct Device {
    flash: Vec<u8>,
    checked: Vec<u8>,
    allocated: bool,
    needed_flash: u32,
    payload_offset: u32,
    fail: Option<Failure>,
}

impl Device {
    fn new(new: &[u8]) -> Self {
        Device {
            flash: vec![0xFF; new.len()],
            checked: Vec::new(),
            allocated: false,
            needed_flash: new.len() as u32,
            payload_offset: 33,
            fail: None,
        }
    }

    /// Runs a reconstruction; relocation flips every payload byte.
    fn install(&mut self, header: &DeltaHeader, patch: &[u8], base: &[u8]) -> Result<(), MessageError> {
        let mut recon = Reconstruction::new(header, base.len() as u32, PREFIX);
        let mut sent = 0usize;
        let mut relocated = self.payload_offset as usize;
        let checksum_offset = header.target_size - 4;
        loop {
            let mut action = recon.poll();
            if let Action::ReadBase { src, len } = action {
                let src = src as usize;
                action = recon.base_read(&base[src..src + len]);
            }
            if recon.is_checksummed(&action) {
                match &action {
                    Action::Write { offset, data, .. } => {
                        // What is written goes right behind what was handed out before.
                        assert_eq!(*offset as usize, self.checked.len());
                        self.checked.extend_from_slice(data);
                    }
                    Action::Relocate { data } => {
                        assert_eq!(relocated, self.checked.len());
                        self.checked.extend_from_slice(data);
                    }
                    _ => panic!("nothing to be checksummed"),
                }
            }
            match action {
                Action::Again => {}
                Action::PullFragment { len } => {
                    if let Some(Failure::Pull(e)) = self.fail {
                        recon.failed(Failure::Pull(e));
                        continue;
                    }
                    recon.fragment_arrived(&patch[sent..sent + len]);
                    sent += len;
                }
                Action::ReadBase { .. } => unreachable!(),
                Action::ParsePrefix { prefix } => {
                    assert_eq!(prefix.len(), PREFIX);
                    recon.prefix_parsed(PrefixInfo {
                        needed_flash: self.needed_flash,
                        needed_ram: 0x400,
                        payload_offset: self.payload_offset,
                        checksum_offset,
                    });
                }
                Action::Allocate { flash, ram } => {
                    assert_eq!((flash, ram), (header.target_size, 0x400));
                    assert!(!self.allocated && self.checked.is_empty());
                    if let Some(Failure::Allocation { out_of_space }) = self.fail {
                        recon.failed(Failure::Allocation { out_of_space });
                        continue;
                    }
                    self.allocated = true;
                    recon.allocated();
                }
                Action::Write { offset, data, flush } => {
                    if let Some(Failure::Write(e)) = self.fail {
                        recon.failed(Failure::Write(e));
                        continue;
                    }
                    let at = offset as usize;
                    self.flash[at..at + data.len()].copy_from_slice(&data);
                    assert_eq!(flush, data.is_empty() || offset == checksum_offset);
                    recon.written();
                }
                Action::ExamineHeader => {
                    recon.header_examined(header.target_size - 4 - self.payload_offset);
                }
                Action::Relocate { data } => {
                    for b in data {
                        self.flash[relocated] = !b;
                        relocated += 1;
                    }
                }
                Action::FinishRelocation => {
                    let end = checksum_offset as usize;
                    recon.relocation_finished(xor_words(&self.checked), xor_words(&self.flash[..end]));
                }
                Action::Validate => {
                    let end = checksum_offset as usize;
                    let sum = u32::from_le_bytes(self.flash[end..].try_into().unwrap());
                    recon.validated(sum == xor_words(&self.flash[..end]));
                }
                Action::Finished => {
                    assert_eq!(recon.stage(), Stage::Done);
                    return Ok(());
                }
                Action::GiveUp { error, deallocate } => {
                    assert_eq!(deallocate, self.allocated);
                    return Err(error);
                }
            }
        }
    }
}

#[test]
fn delta_is_installed() {
    let base = image(1, 700);
    let mut new = image(1, 700);
    new[300] ^= 0x33;
    let end = new.len() - 4;
    let sum = xor_words(&new[..end]);
    new[end..].copy_from_slice(&sum.to_le_bytes());
    let patch = encode(&base, &new);

    let mut device = Device::new(&new);
    assert_eq!(device.install(&header(&patch, &new), &patch, &base), Ok(()));
    // Header verbatim, payload relocated, new checksum behind it.
    assert_eq!(device.checked, new[..end]);
    assert_eq!(device.flash[..33], new[..33]);
    for i in 33..end {
        assert_eq!(device.flash[i], !new[i]);
    }
    let sum = u32::from_le_bytes(device.flash[end..].try_into().unwrap());
    assert_eq!(sum, xor_words(&device.flash[..end]));
}

#[test]
fn wrong_crc_is_refused() {
    let (base, new) = (image(1, 300), image(2, 300));
    let patch = encode(&base, &new);
    let mut header = header(&patch, &new);
    header.reconstructed_crc32 ^= 1;
    assert_eq!(
        Device::new(&new).install(&header, &patch, &base),
        Err(MessageError::DeltaReconstructMismatch)
    );
}

#[test]
fn wrong_trailer_is_refused() {
    let base = image(1, 300);
    let mut new = image(2, 300);
    new[299] ^= 1;
    let patch = encode(&base, &new);
    assert_eq!(
        Device::new(&new).install(&header(&patch, &new), &patch, &base),
        Err(MessageError::FailedHBFValidation)
    );
}

#[test]
fn wrong_size_is_refused_before_anything_is_allocated() {
    let (base, new) = (image(1, 300), image(2, 300));
    let patch = encode(&base, &new);
    let mut device = Device::new(&new);
    device.needed_flash += 1;
    assert_eq!(
        device.install(&header(&patch, &new), &patch, &base),
        Err(MessageError::FailedHBFValidation)
    );
    assert!(!device.allocated);
}

#[test]
fn image_that_ends_early_is_refused() {
    let (base, new) = (image(1, 300), image(2, 300));
    let patch = encode(&base, &new[..200]);
    assert_eq!(
        Device::new(&new).install(&header(&patch, &new), &patch, &base),
        Err(MessageError::FailedHBFValidation)
    );
    let patch = encode(&base, &new[..10]);
    assert_eq!(
        Device::new(&new).install(&header(&patch, &new), &patch, &base),
        Err(MessageError::FailedHBFValidation)
    );
}

#[test]
fn broken_patch_is_refused() {
    let (base, new) = (image(1, 300), image(2, 300));
    let mut patch = encode(&base, &new);
    patch[0] = 0x7E;
    assert_eq!(
        Device::new(&new).install(&header(&patch, &new), &patch, &base),
        Err(MessageError::FailedHBFValidation)
    );
}

#[test]
fn failures_outside_are_reported() {
    let (base, new) = (image(1, 300), image(2, 300));
    let patch = encode(&base, &new);
    let cases = [
        (Failure::Pull(MessageError::Transport), MessageError::Transport),
        (Failure::Allocation { out_of_space: true }, MessageError::NotEnoughSpace),
        (Failure::Allocation { out_of_space: false }, MessageError::FlashError),
        (Failure::Write(MessageError::FlashError), MessageError::FlashError),
    ];
    for (failure, error) in cases {
        let mut device = Device::new(&new);
        device.fail = Some(failure);
        assert_eq!(device.install(&header(&patch, &new), &patch, &base), Err(error));
    }
}

#[test]
fn failures_of_each_kind_have_their_error() {
    let (base, new) = (image(1, 300), image(2, 300));
    let patch = encode(&base, &new);
    let cases = [
        (Failure::BaseRead, MessageError::FlashError),
        (Failure::Parse(MessageError::FailedHBFValidation), MessageError::FailedHBFValidation),
        (Failure::Examination(MessageError::InvalidSize), MessageError::InvalidSize),
        (Failure::Relocation, MessageError::FlashError),
        (Failure::Validation(MessageError::FlashError), MessageError::FlashError),
    ];
    for (failure, error) in cases {
        let mut recon = Reconstruction::new(&header(&patch, &new), base.len() as u32, PREFIX);
        recon.failed(failure);
        assert_eq!(recon.stage(), Stage::Failed(error));
    }
}

#[test]
fn payload_stands_behind_the_header() {
    assert_eq!(payload_address(0x0804_0000, 0x120), 0x0804_0128);
    assert_eq!(payload_address(0, 0), 8);
    assert_eq!(payload_address(u32::MAX - 8, 0), u32::MAX);
}

// ---------------------------------------------------------------------------
//  Stream
// ---------------------------------------------------------------------------

#[test]
fn opcodes_that_stand_for_nothing_are_passed_over() {
    // COPY 0 bytes, ADD 0 bytes, ADD "x", COPY 0 bytes, END.
    let patch = vec![
        1, 0, 0, 0, 0, 0, 0, 0, 0, 2, 0, 0, 0, 0, 2, 1, 0, 0, 0, b'x', 1, 0, 0, 0, 0, 0, 0, 0, 0, 3,
    ];
    let mut stream = ChunkStream::new(patch.len() as u32, 4, 1);
    assert!(matches!(stream.demand(8), Demand::Fragment(30)));
    stream.accept_fragment(&patch);
    match stream.demand(8) {
        Demand::Chunk(chunk) => assert_eq!(chunk, b"x"),
        _ => panic!("no chunk"),
    }
    assert!(matches!(stream.demand(8), Demand::End));
}

#[test]
fn literal_data_that_never_arrives_is_a_failure() {
    // A stream that is over before the three bytes of its ADD are there fails at the opcode.
    let mut stream = ChunkStream::new(6, 0, 3);
    assert!(matches!(stream.demand(8), Demand::Fragment(6)));
    stream.accept_fragment(&[2, 3, 0, 0, 0, b'x']);
    assert!(matches!(stream.demand(8), Demand::Failed));
}

#[test]
fn reader_asks_for_fragments_on_demand() {
    let mut reader = PatchReader::new(70);
    assert_eq!(reader.ensure(9), Some(64));
    let first: Vec<u8> = (0..64).collect();
    reader.accept_fragment(&first);
    assert_eq!(reader.ensure(9), None);
    assert_eq!((reader.available(), reader.remaining()), (64, 6));
    assert_eq!(reader.read(60), first[..60].to_vec());
    assert_eq!(reader.ensure(9), Some(6));
    reader.accept_fragment(&[100, 101, 102, 103, 104, 105]);
    assert_eq!(reader.peek(), &[60, 61, 62, 63, 100, 101, 102, 103, 104, 105]);
    reader.consume(4);
    assert_eq!(reader.peek(), &[100, 101, 102, 103, 104, 105]);
    assert_eq!(reader.ensure(9), None);
}

#[test]
fn chunks_follow_the_opcodes() {
    // COPY 70 bytes from 5, ADD "xy", END.
    let base: Vec<u8> = (0..100).collect();
    let mut patch = vec![1, 5, 0, 0, 0, 70, 0, 0, 0];
    patch.extend_from_slice(&[2, 2, 0, 0, 0, b'x', b'y', 3]);
    let mut stream = ChunkStream::new(patch.len() as u32, 100, 72);

    assert!(matches!(stream.demand(1000), Demand::Fragment(17)));
    stream.accept_fragment(&patch);
    assert!(matches!(stream.demand(1000), Demand::Base { src: 5, len: 64 }));
    stream.accept_base(&base[5..69]);
    assert!(matches!(stream.demand(4), Demand::Base { src: 69, len: 4 }));
    stream.accept_base(&base[69..73]);
    assert!(matches!(stream.demand(4), Demand::Base { src: 73, len: 2 }));
    stream.accept_base(&base[73..75]);
    match stream.demand(1) {
        Demand::Chunk(chunk) => assert_eq!(chunk, b"x"),
        _ => panic!("no chunk"),
    }
    match stream.demand(64) {
        Demand::Chunk(chunk) => assert_eq!(chunk, b"y"),
        _ => panic!("no chunk"),
    }
    assert!(matches!(stream.demand(64), Demand::End));
    let mut whole = base[5..75].to_vec();
    whole.extend_from_slice(b"xy");
    assert_eq!(stream.crc32(), crc32b(&whole));
}

// ---------------------------------------------------------------------------
//  Base
// ---------------------------------------------------------------------------

#[test]
fn delta_header_is_parsed_and_validated() {
    let header = header(&[3], &[1, 2, 3]);
    let bytes = header.to_bytes();
    assert_eq!(parse_delta_header(&bytes), Ok(header));
    assert_eq!(parse_delta_header(&bytes[..31]), Err(MessageError::InvalidSize));
    let mut bad = bytes;
    bad[4] = 2;
    assert_eq!(parse_delta_header(&bad), Err(MessageError::FailedHBFValidation));
}

#[test]
fn base_is_found_by_id_and_version() {
    let header = header(&[3], &[]);
    let wrong_version = BlockScan::Component { address: 0x100, id: 3, version: 6, total_size: 10 };
    let right = BlockScan::Component { address: 0x200, id: 3, version: 7, total_size: 20 };
    let blocks = [BlockScan::NoComponent, wrong_version, right, BlockScan::Unavailable];
    assert_eq!(find_base(&header, &blocks), Ok((0x200, 20)));
    assert_eq!(find_base(&header, &blocks[..2]), Err(MessageError::DeltaBaseNotFound));
    assert_eq!(
        find_base(&header, &[BlockScan::Unavailable, right]),
        Err(MessageError::FlashError)
    );
    assert!(search_ends_at(&header, &right));
    assert!(search_ends_at(&header, &BlockScan::Unavailable));
    assert!(!search_ends_at(&header, &wrong_version));
    assert!(!search_ends_at(&header, &BlockScan::NoComponent));
}

#[test]
fn windows_are_zeroed_where_they_overlap_the_chunk() {
    // The chunk starts at 6.
    let cases: [(u32, u32, [u8; 4]); 8] = [
        (0, 4, [1, 1, 1, 1]),
        (2, 4, [1, 1, 1, 1]),
        (3, 4, [0, 1, 1, 1]),
        (5, 4, [0, 0, 0, 1]),
        (8, 4, [1, 1, 0, 0]),
        (10, 4, [1, 1, 1, 1]),
        (4, 100, [0, 0, 0, 0]),
        (u32::MAX - 1, 4, [1, 1, 1, 1]),
    ];
    for (start, len, expected) in cases {
        let mut chunk = vec![1u8; 4];
        zero_window(&mut chunk, 6, start, len);
        assert_eq!(chunk, expected, "window at {start}");
    }
}

fn verify(base: &[u8], layout: BaseLayout, expected: u32) -> Result<BaseCheckOutcome, MessageError> {
    let mut verification = BaseVerification::new(layout, expected);
    loop {
        match verification.step() {
            BaseStep::Read { offset, len } => {
                let at = offset as usize;
                verification.accept(&base[at..at + len]);
            }
            BaseStep::Finished(outcome) => return outcome,
        }
    }
}

/// A base whose relocation table, of two entries 8 bytes apart, stands at offset 40.
fn relocatable() -> (Vec<u8>, BaseLayout) {
    let mut base = image(5, 200);
    base[40..44].copy_from_slice(&0x0100_0050u32.to_le_bytes());
    base[48..52].copy_from_slice(&0x0200_003Eu32.to_le_bytes());
    let layout = BaseLayout {
        total_size: 200,
        checksum_offset: 196,
        reloc_offset: 40,
        reloc_size: 8,
        num_relocations: 2,
    };
    (base, layout)
}

#[test]
fn right_base_is_verified_whatever_relocation_did_to_it() {
    let (mut base, layout) = relocatable();
    let expected = masked_crc32(&base, &[0x3E..0x42, 0x50..0x54, 196..200]);
    assert_eq!(verify(&base, layout, expected), Ok(BaseCheckOutcome::Verified));
    for i in (0x3E..0x42).chain(0x50..0x54).chain(196..200) {
        base[i] ^= 0xA5;
    }
    assert_eq!(verify(&base, layout, expected), Ok(BaseCheckOutcome::Verified));
}

#[test]
fn last_relocation_entry_may_stand_at_the_end_of_the_range() {
    let layout = BaseLayout {
        total_size: 200,
        checksum_offset: 196,
        reloc_offset: u32::MAX - 8,
        reloc_size: 8,
        num_relocations: 2,
    };
    let mut verification = BaseVerification::new(layout, 0);
    assert_eq!(verification.step(), BaseStep::Read { offset: u32::MAX - 8, len: 4 });
    verification.accept(&[0, 0, 0, 0]);
    assert_eq!(verification.step(), BaseStep::Read { offset: u32::MAX, len: 4 });
}

#[test]
fn wrong_base_is_told_apart() {
    let (mut base, layout) = relocatable();
    let expected = masked_crc32(&base, &[0x3E..0x42, 0x50..0x54, 196..200]);
    base[100] ^= 1;
    assert_eq!(verify(&base, layout, expected), Err(MessageError::DeltaBaseCrcMismatch));
}

#[test]
fn check_is_skipped_with_too_many_relocations() {
    let (base, mut layout) = relocatable();
    layout.num_relocations = 65;
    assert_eq!(verify(&base, layout, 0), Ok(BaseCheckOutcome::SkippedTooManyRelocs));
    assert!(BaseCheck::new(200, 196, &[0; 65]).is_none());
    assert!(BaseCheck::new(200, 196, &[0; 64]).is_some());
}

#[test]
fn base_without_relocations_is_verified() {
    let base = image(9, 130);
    let layout = BaseLayout {
        total_size: 130,
        checksum_offset: 126,
        reloc_offset: 0,
        reloc_size: 8,
        num_relocations: 0,
    };
    let expected = masked_crc32(&base, &[126..130]);
    assert_eq!(verify(&base, layout, expected), Ok(BaseCheckOutcome::Verified));
}

// ---------------------------------------------------------------------------
//  Course of an update
// ---------------------------------------------------------------------------

#[test]
fn phases_follow_each_other() {
    let mut phase = Phase::HeaderPull;
    let mut order = vec![phase];
    let outcome = loop {
        match phase.then_comes(Ok(())) {
            Course::Next(next) => {
                phase = next;
                order.push(next);
            }
            Course::Over(outcome) => break outcome,
        }
    };
    assert_eq!(outcome, Ok(()));
    assert_eq!(
        order,
        vec![
            Phase::HeaderPull,
            Phase::BaseSearch,
            Phase::BaseVerification,
            Phase::Reconstruction,
            Phase::Report,
            Phase::Load,
        ]
    );
    let markers: Vec<Option<u8>> = order.iter().map(|p| p.marker()).collect();
    assert_eq!(markers, vec![Some(0), Some(1), Some(2), Some(3), None, Some(4)]);
}

#[test]
fn failed_phase_ends_the_update() {
    let failed = Err(MessageError::FlashError);
    assert_eq!(Phase::BaseSearch.then_comes(failed), Course::Over(failed));
    assert_eq!(Phase::Report.then_comes(failed), Course::Over(failed));
    assert_eq!(Phase::Load.then_comes(failed), Course::Over(Ok(())));
}

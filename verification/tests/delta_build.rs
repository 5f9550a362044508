//! Building delta images.

use std::ops::Range;

use delta_patcher::delta_gen::{
    assemble, build_delta, decode_against, masked_crc32, relocation_site, self_check, BaseFacts,
    FixedHeader, GenError,
};
use delta_patcher::flash_host::{is_delta_image, split_delta, LayoutError};
use delta_patcher::measure::patch_stats;
use delta_patcher::ranges::{normalize_ranges, OutOfBounds};
use delta_patcher::simulate::{simulate_device, SimulationError};
use delta_patcher::{crc32b, decode_to_report, encode, encode_faithful, DecodeError, DeltaHeader};

fn pair() -> (Vec<u8>, Vec<u8>) {
    let old: Vec<u8> = (0..600usize).map(|i| (i * 31 % 241) as u8).collect();
    let mut new = old.clone();
    new[200] ^= 0x5A;
    new.extend_from_slice(&[1, 2, 3, 4, 5]);
    (old, new)
}

fn facts() -> BaseFacts {
    BaseFacts {
        relocations: vec![0x0100_0064, 0x0200_012C, 0x0100_0066],
        trailer_start: 596,
        component_id: 9,
        component_version: 0x0102,
    }
}

fn fixed(new: &[u8]) -> FixedHeader {
    FixedHeader { len: 60, flags_offset: 38, flags: u16::from_le_bytes([new[38], new[39]]) }
}

#[test]
fn ranges_are_sorted_and_merged() {
    let ranges = vec![300..304, 100..104, 102..106, 106..107, 200..204];
    let expected: Vec<Range<usize>> = vec![100..107, 200..204, 300..304];
    assert_eq!(normalize_ranges(ranges, 304), Ok(expected));
    assert_eq!(normalize_ranges(vec![], 0), Ok(vec![]));
}

#[test]
fn ranges_past_the_end_are_rejected() {
    assert_eq!(
        normalize_ranges(vec![4..8, 300..304, 500..504], 303),
        Err(OutOfBounds { start: 300, end: 304, len: 303 })
    );
}

#[test]
fn a_range_inside_another_is_swallowed() {
    assert_eq!(normalize_ranges(vec![10..30, 12..14], 100), Ok(vec![10..30]));
}

#[test]
fn masked_bytes_count_as_zero() {
    let mut data: Vec<u8> = (1..=50).collect();
    let crc = masked_crc32(&data, &[3..7, 40..50]);
    let mut zeroed = data.clone();
    for i in (3..7).chain(40..50) {
        zeroed[i] = 0;
    }
    assert_eq!(crc, crc32b(&zeroed));
    data[5] = 0xEE;
    assert_eq!(masked_crc32(&data, &[3..7, 40..50]), crc);
    data[7] = 0xEE;
    assert_ne!(masked_crc32(&data, &[3..7, 40..50]), crc);
    assert_eq!(masked_crc32(&data, &[]), crc32b(&data));
}

#[test]
fn sites_are_the_low_24_bits() {
    assert_eq!(relocation_site(0xAB12_3456), 0x0012_3456);
}

#[test]
fn decoding_fills_the_target_with_zeros() {
    // ADD "ab", END: two bytes of a target of four.
    let patch = [2, 2, 0, 0, 0, b'a', b'b', 3];
    assert_eq!(decode_against(&patch, &[], 4), Ok((vec![b'a', b'b', 0, 0], 0, 1)));
    assert_eq!(decode_against(&patch, &[], 1), Err(DecodeError::OutputOverflow));
}

#[test]
fn self_check_accepts_a_faithful_patch() {
    let (old, new) = pair();
    let forbidden = [100..106, 300..304, 596..600];
    let patch = encode_faithful(&old, &new, &forbidden);
    let (out, copies, adds, bytes) = self_check(&patch, &old, &new, &forbidden).unwrap();
    assert_eq!(out, new);
    assert_eq!(bytes, 14);
    let stats = patch_stats(&decode_to_report(&patch, &old, new.len() as u32).ops);
    assert_eq!((stats.copy_ops, stats.add_ops), (copies, adds));
    assert_eq!(stats.copy_bytes + stats.add_bytes, new.len() as u64);
}

#[test]
fn self_check_rejects_a_patch_that_copies_forbidden_bytes() {
    let (old, new) = pair();
    let patch = encode(&old, &new);
    assert_eq!(
        self_check(&patch, &old, &new, &[100..104]),
        Err(GenError::ForbiddenCopied)
    );
}

#[test]
fn self_check_rejects_a_patch_for_another_image() {
    let (old, new) = pair();
    let mut other = new.clone();
    other[0] ^= 1;
    let patch = encode(&old, &other);
    assert_eq!(self_check(&patch, &old, &new, &[]), Err(GenError::PristineMismatch));
}

#[test]
fn self_check_rejects_a_patch_that_yields_too_little() {
    // END alone yields nothing, though the new image is all zeros.
    assert_eq!(self_check(&[3], &[], &[0, 0], &[]), Err(GenError::PristineMismatch));
    // ADD "ab", END: the two zeros behind it are missing.
    let patch = [2, 2, 0, 0, 0, b'a', b'b', 3];
    assert_eq!(self_check(&patch, &[], b"ab\0\0", &[]), Err(GenError::PristineMismatch));
    assert!(self_check(&patch, &[], b"ab", &[]).is_ok());
    assert!(self_check(&[3], &[], &[], &[]).is_ok());
}

#[test]
fn accepted_patch_works_from_every_base_that_differs_in_forbidden_bytes_only() {
    // COPY 4 bytes from 4, ADD "z", END.
    let old: Vec<u8> = (0..12).collect();
    let patch = [1, 4, 0, 0, 0, 4, 0, 0, 0, 2, 1, 0, 0, 0, b'z', 3];
    let new = [4, 5, 6, 7, b'z'];
    let forbidden = [0..4, 8..12];
    assert!(self_check(&patch, &old, &new, &forbidden).is_ok());
    for value in [0u8, 0x5A, 0xFF] {
        let mut base = old.clone();
        for i in (0..4).chain(8..12) {
            base[i] = value;
        }
        assert_eq!(decode_against(&patch, &base, 5).unwrap().0, new);
    }
    assert_eq!(self_check(&patch, &old, &new, &[7..8]), Err(GenError::ForbiddenCopied));
}

#[test]
fn self_check_rejects_a_broken_patch() {
    let (old, new) = pair();
    assert_eq!(
        self_check(&[0x09], &old, &new, &[]),
        Err(GenError::Decode(DecodeError::UnknownOpcode(0x09)))
    );
}

#[test]
fn built_image_has_the_documented_layout() {
    let (old, new) = pair();
    let build = build_delta(&old, &facts(), &new, &fixed(&new)).unwrap();

    // Sites 0x64 and 0x66 overlap and are merged; the trailer stands at the end.
    assert_eq!(build.forbidden, vec![100..106, 300..304, 596..600]);
    assert_eq!(build.forbidden_bytes, 14);
    assert_eq!(build.patch, encode_faithful(&old, &new, &build.forbidden));

    let header = build.header;
    assert!(header.validate());
    assert_eq!(header.base_component_id, 9);
    assert_eq!(header.base_component_version, 0x0102);
    assert_eq!(header.base_crc32, masked_crc32(&old, &build.forbidden));
    assert_eq!(header.reconstructed_crc32, crc32b(&new));
    assert_eq!(header.patch_payload_size as usize, build.patch.len());
    assert_eq!(header.target_size as usize, new.len());

    let image = &build.image;
    let flags = u16::from_le_bytes([image[38], image[39]]);
    assert_eq!(flags, u16::from_le_bytes([new[38], new[39]]) | 2);
    assert_eq!(image[..38], new[..38]);
    assert_eq!(image[40..60], new[40..60]);
    assert_eq!(image[60..92], header.to_bytes());
    assert_eq!(image[92..image.len() - 4], build.patch[..]);
    let trailer = crc32b(&image[..image.len() - 4]).to_le_bytes();
    assert_eq!(image[image.len() - 4..], trailer);
}

#[test]
fn built_image_comes_apart_again() {
    let (old, new) = pair();
    let build = build_delta(&old, &facts(), &new, &fixed(&new)).unwrap();
    assert!(is_delta_image(&build.image, 38));
    let parts = split_delta(&build.image, 60).unwrap();
    assert_eq!(DeltaHeader::from_bytes(&parts.delta_header), Some(build.header));
    assert_eq!(parts.patch, build.patch);
    assert_eq!(parts.fixed_header, build.image[..60].to_vec());
    assert_eq!(parts.trailer, build.image[build.image.len() - 4..].to_vec());
}

#[test]
fn full_images_are_no_deltas() {
    let mut image = vec![0u8; 64];
    assert!(!is_delta_image(&image, 38));
    image[38] = 0xFD;
    image[39] = 0xFF;
    assert!(!is_delta_image(&image, 38));
    image[38] = 0x02;
    assert!(is_delta_image(&image, 38));
}

#[test]
fn broken_layouts_are_rejected() {
    let (old, new) = pair();
    let image = build_delta(&old, &facts(), &new, &fixed(&new)).unwrap().image;
    assert!(matches!(split_delta(&image[..95], 60), Err(LayoutError::TooShort)));
    let cut = &image[..image.len() - 1];
    match split_delta(cut, 60) {
        Err(LayoutError::PatchOverruns { patch_size, len }) => {
            assert_eq!(patch_size as usize, image.len() - 96);
            assert_eq!(len, image.len() - 1);
        }
        _ => panic!("accepted"),
    }
    assert!(matches!(split_delta(&[], usize::MAX), Err(LayoutError::TooShort)));
}

#[test]
fn unreliable_words_must_lie_in_the_old_image() {
    let (old, new) = pair();
    let mut facts = facts();
    facts.relocations.push(598);
    assert_eq!(
        build_delta(&old, &facts, &new, &fixed(&new)).err(),
        Some(GenError::ForbiddenOutOfBounds(OutOfBounds { start: 598, end: 602, len: 600 }))
    );
}

#[test]
fn fixed_header_must_be_there() {
    let (old, _) = pair();
    let new = vec![0u8; 59];
    let fixed = FixedHeader { len: 60, flags_offset: 38, flags: 0 };
    assert_eq!(
        build_delta(&old, &facts(), &new, &fixed).err(),
        Some(GenError::ShorterThanFixedHeader)
    );
}

#[test]
fn flags_must_be_where_they_are_expected() {
    let (old, new) = pair();
    let build = build_delta(&old, &facts(), &new, &fixed(&new)).unwrap();
    let mut wrong = fixed(&new);
    wrong.flags ^= 0x8000;
    assert_eq!(
        assemble(&new, &wrong, &build.header, &build.patch),
        Err(GenError::FlagsNotFound)
    );
}

#[test]
fn device_rebuilds_from_its_relocated_base() {
    let (old, new) = pair();
    let build = build_delta(&old, &facts(), &new, &fixed(&new)).unwrap();
    let mut base = old.clone();
    for range in &build.forbidden {
        for i in range.clone() {
            base[i] = base[i].wrapping_mul(3).wrapping_add(17);
        }
    }
    let (size, crc) = (build.header.target_size, build.header.reconstructed_crc32);
    assert_eq!(simulate_device(&build.patch, &base, size, crc), Ok(new.clone()));
    assert_eq!(simulate_device(&build.patch, &old, size, crc), Ok(new));
}

#[test]
fn simulated_device_refuses_what_it_cannot_rebuild() {
    let (old, new) = pair();
    let patch = encode(&old, &new);
    let (size, crc) = (new.len() as u32, crc32b(&new));
    assert_eq!(
        simulate_device(&patch, &old, size, crc ^ 1),
        Err(SimulationError::CrcMismatch { crc })
    );
    assert_eq!(
        simulate_device(&patch, &old, size + 1, crc),
        Err(SimulationError::SizeMismatch { size: new.len() })
    );
    assert_eq!(simulate_device(&patch, &old, size - 1, crc), Err(SimulationError::Undecodable));
    assert_eq!(simulate_device(&[], &old, size, crc), Err(SimulationError::Undecodable));
}

#[test]
fn simulated_device_passes_over_empty_opcodes() {
    // ADD of nothing, COPY of nothing, ADD "x", ADD of nothing, END.
    let mut patch = vec![2, 0, 0, 0, 0];
    patch.extend_from_slice(&[1, 1, 0, 0, 0, 0, 0, 0, 0]);
    patch.extend_from_slice(&[2, 1, 0, 0, 0, b'x']);
    patch.extend_from_slice(&[2, 0, 0, 0, 0]);
    patch.push(3);
    assert_eq!(simulate_device(&patch, &[5, 6], 1, crc32b(b"x")), Ok(b"x".to_vec()));
}

//! Delta header, CRC-32b and little-endian fields.

use delta_patcher::format::{find_delta_header, DELTA_HEADER_SIZE};
use delta_patcher::le::{push_u32, u16_le, u32_le};
use delta_patcher::{crc32b, Crc32State, DeltaHeader, ALGO_COPY_ADD_V1, DELTA_FORMAT_V1, DELTA_MAGIC};

fn sample() -> DeltaHeader {
    DeltaHeader {
        magic: DELTA_MAGIC,
        format_version: DELTA_FORMAT_V1,
        algorithm_id: ALGO_COPY_ADD_V1,
        base_component_id: 0x0203,
        base_component_version: 0x0405_0607,
        reserved: 0,
        base_crc32: 0x1122_3344,
        reconstructed_crc32: 0x5566_7788,
        patch_payload_size: 0x0000_0729,
        target_size: 0x0000_1700,
    }
}

#[test]
fn crc_of_the_check_string() {
    assert_eq!(crc32b(b"123456789"), 0xCBF4_3926);
    assert_eq!(crc32b(b""), 0);
}

#[test]
fn crc_does_not_depend_on_the_chunks() {
    let data: Vec<u8> = (0..=255).collect();
    for cut in [0usize, 1, 63, 64, 200, 256] {
        let mut state = Crc32State::new();
        state.update(&data[..cut]);
        state.update(&data[cut..]);
        assert_eq!(state.finalize(), crc32b(&data));
    }
}

#[test]
fn crc_notices_a_changed_byte() {
    let data: Vec<u8> = (0..100).collect();
    for at in 0..data.len() {
        let mut other = data.clone();
        other[at] ^= 0x40;
        assert_ne!(crc32b(&other), crc32b(&data));
    }
}

#[test]
fn header_on_the_wire() {
    let expected: [u8; 32] = [
        0x44, 0x45, 0x4C, 0x54, 0x01, 0x00, 0x01, 0x00, 0x03, 0x02, 0x07, 0x06, 0x05, 0x04, 0x00, 0x00,
        0x44, 0x33, 0x22, 0x11, 0x88, 0x77, 0x66, 0x55, 0x29, 0x07, 0x00, 0x00, 0x00, 0x17, 0x00, 0x00,
    ];
    assert_eq!(sample().to_bytes(), expected);
}

#[test]
fn header_comes_back_from_the_wire() {
    let header = sample();
    let mut bytes = header.to_bytes().to_vec();
    assert_eq!(DeltaHeader::from_bytes(&bytes), Some(header));
    bytes.push(0xAA);
    assert_eq!(DeltaHeader::from_bytes(&bytes), Some(header));
    assert_eq!(DeltaHeader::from_bytes(&bytes[..DELTA_HEADER_SIZE - 1]), None);
}

#[test]
fn header_validation() {
    assert!(sample().validate());
    let mut header = sample();
    header.magic[3] = b'A';
    assert!(!header.validate());
    let mut header = sample();
    header.format_version = 2;
    assert!(!header.validate());
    let mut header = sample();
    header.algorithm_id = 0;
    assert!(!header.validate());
    let mut header = sample();
    header.reserved = 1;
    assert!(!header.validate());
}

#[test]
fn header_is_found_by_its_magic() {
    let mut image = vec![0u8; 60];
    image[10] = b'D';
    image.extend_from_slice(&sample().to_bytes());
    assert_eq!(find_delta_header(&image), Some(60));
    assert_eq!(find_delta_header(&image[..63]), None);
    assert_eq!(find_delta_header(b"DELT"), Some(0));
    assert_eq!(find_delta_header(b""), None);
}

#[test]
fn fields_are_little_endian() {
    let mut out = vec![7u8];
    push_u32(&mut out, 0xDEAD_BEEF);
    assert_eq!(out, vec![7, 0xEF, 0xBE, 0xAD, 0xDE]);
    assert_eq!(u16_le(&out, 1), 0xBEEF);
    assert_eq!(u32_le(&out, 1), 0xDEAD_BEEF);
}

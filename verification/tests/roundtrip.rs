//! Round-trip tests: encode(old, new) → decode + apply → assert output == new.
//!
//! These tests exercise both the encoder and decoder together.

use delta_patcher::decoder::{Decoder, DecoderAction};
use delta_patcher::encoder::{encode, encode_faithful, encode_to_report, EncodedOp};
use delta_patcher::format::OP_END;
use delta_patcher::text::{decimal_of, hexadecimal_of, left_aligned_of, right_aligned_of};

/// Apply a patch opcode stream against `old` to reconstruct `new`.
/// Simulates what the device-side applicator does.
fn apply_patch(old: &[u8], patch: &[u8], target_size: usize) -> Vec<u8> {
    let mut decoder = Decoder::new(patch.len() as u32, old.len() as u32, target_size as u32);
    let mut output = Vec::new();
    let mut patch_pos: usize = 0;

    loop {
        let (action, consumed) = decoder
            .next_action(&patch[patch_pos..])
            .expect("decoder error");
        patch_pos += consumed;

        match action {
            DecoderAction::Copy { src_offset, len } => {
                let start = src_offset as usize;
                let end = start + len as usize;
                output.extend_from_slice(&old[start..end]);
            }
            DecoderAction::Add { len } => {
                let len = len as usize;
                let data = &patch[patch_pos..patch_pos + len];
                output.extend_from_slice(data);
                decoder.advance_add(len as u32).unwrap();
                patch_pos += len;
            }
            DecoderAction::Done => break,
        }
    }

    output
}

// ---------------------------------------------------------------------------
//  Test: identical inputs → trivially one big COPY
// ---------------------------------------------------------------------------
#[test]
fn roundtrip_identical() {
    let data = b"The quick brown fox jumps over the lazy dog. Repeating content here.";
    let patch = encode(data, data);
    let reconstructed = apply_patch(data, &patch, data.len());
    assert_eq!(reconstructed, data);
}

// ---------------------------------------------------------------------------
//  Test: completely different inputs → all ADD
// ---------------------------------------------------------------------------
#[test]
fn roundtrip_completely_different() {
    let old = vec![0xAA; 100];
    let new = vec![0xBB; 100];
    let patch = encode(&old, &new);
    let reconstructed = apply_patch(&old, &patch, new.len());
    assert_eq!(reconstructed, new);
}

// ---------------------------------------------------------------------------
//  Test: empty new → output is just END
// ---------------------------------------------------------------------------
#[test]
fn roundtrip_empty_new() {
    let old = b"some old data";
    let new: &[u8] = &[];
    let patch = encode(old, new);
    assert_eq!(patch, vec![OP_END]);
    let reconstructed = apply_patch(old, &patch, new.len());
    assert_eq!(reconstructed, new);
}

// ---------------------------------------------------------------------------
//  Test: append-only change
// ---------------------------------------------------------------------------
#[test]
fn roundtrip_append() {
    let old = b"AAAAAAAAAAAAAAAAAAAAAAAAAAAAAAAAAAAAAAAA"; // 40 bytes
    let mut new = old.to_vec();
    new.extend_from_slice(b"BBBBBBBBBBBBBBBBBBBB"); // append 20 bytes
    let patch = encode(old, &new);
    let reconstructed = apply_patch(old, &patch, new.len());
    assert_eq!(reconstructed, new);
}

// ---------------------------------------------------------------------------
//  Test: realistic small change in the middle
// ---------------------------------------------------------------------------
#[test]
fn roundtrip_middle_edit() {
    // Old: a 200-byte block of structured data
    let mut old = Vec::new();
    for i in 0u8..200 {
        old.push(i);
    }
    // New: same, but bytes 80..90 are changed
    let mut new = old.clone();
    for i in 80..90 {
        new[i] = 0xFF;
    }
    let patch = encode(&old, &new);
    let reconstructed = apply_patch(&old, &patch, new.len());
    assert_eq!(reconstructed, new);

    // Verify the patch is smaller than the full new image
    assert!(
        patch.len() < new.len(),
        "patch ({} B) should be smaller than new ({} B)",
        patch.len(),
        new.len()
    );
}

// ---------------------------------------------------------------------------
//  Test: scattered changes with a report
// ---------------------------------------------------------------------------
#[test]
fn roundtrip_scattered_changes_with_report() {
    let mut old = Vec::new();
    for i in 0..4096u32 {
        old.push((i % 251) as u8);
    }

    // Scattered changes
    let mut new = old.clone();
    for i in 100..120 {
        new[i] = 0xDE;
    }
    for i in 2000..2050 {
        new[i] = 0xAD;
    }
    for i in 3800..3850 {
        new[i] = 0xBE;
    }

    let report = encode_to_report(&old, &new);
    assert_eq!(report.patch, encode(&old, &new));
    let reconstructed = apply_patch(&old, &report.patch, new.len());
    assert_eq!(reconstructed, new);

    // Less than half of the image is sent.
    assert!(2 * report.patch.len() < new.len());

    // The image repeats with period 251: so many different windows, each first seen in turn.
    assert_eq!(report.table.len(), 251);
    for (k, entry) in report.table.iter().enumerate() {
        let expected: Vec<usize> = (k..=4096 - 16).step_by(251).collect();
        assert_eq!(entry.positions, expected);
    }

    assert_eq!(
        report.ops[..3],
        [
            EncodedOp::Copy { src_offset: 0, len: 100, new_pos: 0 },
            EncodedOp::Add { start: 100, len: 20 },
            EncodedOp::Copy { src_offset: 120, len: 1880, new_pos: 120 },
        ]
    );

    // Verify the report
    assert!(report.text.contains("=== Delta Encoder ==="));
    assert!(report.text.contains("Hash Table"));
    assert!(report.text.contains("COPY"));
    assert!(report.text.contains("ADD"));
    assert!(report.text.contains("END"));

    // The lines, as the standard formatting gives them.
    let mut expected = format!(
        "=== Delta Encoder ===\n\
         \x20 old size: 4096 bytes\n\
         \x20 new size: 4096 bytes\n\
         \x20 window:   16 bytes\n\
         \x20 min match: 10 bytes\n\
         \x20 max candidates: 64\n\
         \n--- Hash Table (251 unique hashes) ---\n"
    );
    for entry in &report.table {
        let p = &entry.positions;
        assert!(p.len() > 4);
        expected.push_str(&format!(
            "  hash 0x{:08X} -> offsets [{}, {}, ... +{} more]\n",
            entry.hash,
            p[0],
            p[1],
            p.len() - 2
        ));
    }
    expected.push_str("--- End Hash Table ---\n\n");
    for (i, op) in report.ops.iter().enumerate() {
        expected.push_str(&match *op {
            EncodedOp::Add { start, len } => format!(
                "[opcode #{:>3}] ADD   len={:<6} new[{}..{}]\n",
                i + 1,
                len,
                start,
                start + len
            ),
            EncodedOp::Copy { src_offset, len, new_pos } => format!(
                "[opcode #{:>3}] COPY  src_offset={:<6} len={:<6} old[{}..{}] -> new[{}..{}]\n",
                i + 1,
                src_offset,
                len,
                src_offset,
                src_offset + len,
                new_pos,
                new_pos + len
            ),
        });
    }
    expected.push_str(&format!("[opcode #{:>3}] END\n", report.ops.len() + 1));
    expected.push_str(&format!(
        "\n=== Summary: {} opcodes, {} bytes patch payload (vs 4096 bytes new) ===\n",
        report.ops.len() + 1,
        report.patch.len()
    ));
    assert_eq!(report.text, expected);
}

#[test]
fn report_on_small_images() {
    let head = |old: usize, new: usize| {
        format!(
            "=== Delta Encoder ===\n\
             \x20 old size: {old} bytes\n\
             \x20 new size: {new} bytes\n\
             \x20 window:   16 bytes\n\
             \x20 min match: 10 bytes\n\
             \x20 max candidates: 64\n"
        )
    };
    let empty = encode_to_report(&[1, 2, 3], &[]);
    assert_eq!(empty.text, head(3, 0) + "\n[opcode] END  (empty target)\n");

    // One window, which hashes to 0, at three offsets.
    let zeros = encode_to_report(&[0; 18], &[7]);
    let expected = head(18, 1)
        + "\n--- Hash Table (1 unique hashes) ---\n\
           \x20 hash 0x00000000 -> offsets [0, 1, 2]\n\
           --- End Hash Table ---\n\
           \n\
           [opcode #  1] ADD   len=1      new[0..1]\n\
           [opcode #  2] END\n\
           \n=== Summary: 2 opcodes, 7 bytes patch payload (vs 1 bytes new) ===\n";
    assert_eq!(zeros.text, expected);

    // No window at all.
    let short = encode_to_report(&[1], &[2]);
    assert!(short.text.contains("(0 unique hashes) ---\n--- End Hash Table ---\n\n[opcode"));
}

#[test]
fn numbers_as_text() {
    for n in [0u128, 7, 10, 99, 100, 999, 1000, 123_456, 1_234_567, u128::MAX] {
        assert_eq!(decimal_of(n), format!("{}", n));
        assert_eq!(right_aligned_of(n, 3), format!("{:>3}", n));
        assert_eq!(left_aligned_of(n, 6), format!("{:<6}", n));
    }
    for n in [0u32, 9, 10, 15, 16, 0xDEAD_BEEF, u32::MAX] {
        assert_eq!(hexadecimal_of(n, 8), format!("{:08X}", n));
    }
}

// ---------------------------------------------------------------------------
//  Exact patches
// ---------------------------------------------------------------------------
#[test]
fn identical_images_are_one_copy() {
    let data: Vec<u8> = (0..40).collect();
    assert_eq!(encode(&data, &data), vec![1, 0, 0, 0, 0, 40, 0, 0, 0, 3]);
}

#[test]
fn literal_bytes_come_before_the_copy() {
    let old: Vec<u8> = (0..16).collect();
    let mut new = vec![0xEE, 0xEF];
    new.extend_from_slice(&old);
    let mut expected = vec![2, 2, 0, 0, 0, 0xEE, 0xEF];
    expected.extend_from_slice(&[1, 0, 0, 0, 0, 16, 0, 0, 0]);
    expected.push(3);
    assert_eq!(encode(&old, &new), expected);
}

#[test]
fn windows_shorter_than_sixteen_bytes_are_added() {
    // Fifteen equal bytes at the end are no window.
    let old: Vec<u8> = (0..15).collect();
    let mut expected = vec![2, 15, 0, 0, 0];
    expected.extend_from_slice(&old);
    expected.push(3);
    assert_eq!(encode(&old, &old), expected);
}

#[test]
fn clipped_matches_shorter_than_ten_bytes_are_added() {
    // The match at 0 has 9 bytes before the forbidden range; the one at 10 has 10 behind it.
    let old: Vec<u8> = (0..26).collect();
    let report = encode_faithful(&old, &old, &[9..10]);
    let mut expected = vec![2, 10, 0, 0, 0];
    expected.extend_from_slice(&old[0..10]);
    expected.extend_from_slice(&[1, 10, 0, 0, 0, 16, 0, 0, 0]);
    expected.push(3);
    assert_eq!(report, expected);
}

#[test]
fn the_first_of_equally_long_matches_is_taken() {
    let block: Vec<u8> = (100..120).collect();
    let mut old = block.clone();
    old.push(1);
    old.extend_from_slice(&block);
    assert_eq!(encode(&old, &block), vec![1, 0, 0, 0, 0, 20, 0, 0, 0, 3]);
}

#[test]
fn the_longest_match_is_taken() {
    let short: Vec<u8> = (100..116).collect();
    let long: Vec<u8> = (100..130).collect();
    let mut old = short.clone();
    old.push(1);
    old.extend_from_slice(&long);
    assert_eq!(encode(&old, &long), vec![1, 17, 0, 0, 0, 30, 0, 0, 0, 3]);
}

#[test]
fn only_the_first_candidates_are_looked_at() {
    // 64 windows that match 16 bytes, then one that would match 20.
    let mut window: Vec<u8> = (0..16).collect();
    let mut old = Vec::new();
    for _ in 0..64 {
        old.extend_from_slice(&window);
        old.push(0xFF);
    }
    window.extend_from_slice(&[50, 51, 52, 53]);
    old.extend_from_slice(&window);
    let patch = encode(&old, &window);
    let mut expected = vec![1, 0, 0, 0, 0, 16, 0, 0, 0];
    expected.extend_from_slice(&[2, 4, 0, 0, 0, 50, 51, 52, 53, 3]);
    assert_eq!(patch, expected);
}

#[test]
fn patches_stay_within_their_size_bound() {
    // Alternating literals and shortest matches are the worst case.
    let old: Vec<u8> = (0..=255).collect();
    let mut new = Vec::new();
    for i in 0..8usize {
        new.push(0xFF - i as u8);
        new.extend_from_slice(&old[16 * i..16 * i + 16]);
    }
    let patch = encode(&old, &new);
    assert_eq!(apply_patch(&old, &patch, new.len()), new);
    assert!(11 * patch.len() <= 15 * new.len() + 66);
}

//! What the encoder and the decoder report of their work, as text.

use vstd::prelude::*;
use vstd::string::*;

use crate::crc;
use crate::crc::crc32b;
use crate::decoder::DecoderState;
use crate::encoder;
use crate::encoder::{EncodedOp, HashEntry, MAX_CANDIDATES, MIN_MATCH_LEN, WINDOW_SIZE};
use crate::error::DecodeError;
use crate::greedy;
use crate::patch;
use crate::patch::DecodedOp;
use crate::roundtrip;
use crate::text::{
    decimal, decimal_of, hexadecimal, hexadecimal_of, left_aligned, left_aligned_of,
    right_aligned, right_aligned_of,
};

verus! {

/// `from..to`.
pub open spec fn span(from: nat, len: nat) -> Seq<char> {
    decimal(from) + ".."@ + decimal(from + len)
}

fn span_of(from: usize, len: usize) -> (s: String)
    ensures
        s@ == span(from as nat, len as nat),
{
    let mut s: String = decimal_of(from as u128);
    s.append("..");
    s.append(decimal_of(from as u128 + len as u128).as_str());
    s
}

/// The beginning of the line of an opcode.
pub open spec fn numbered(number: nat) -> Seq<char> {
    "[opcode #"@ + right_aligned(number, 3) + "] "@
}

fn numbered_of(number: u128) -> (s: String)
    ensures
        s@ == numbered(number as nat),
{
    let mut s: String = "[opcode #".to_owned();
    s.append(right_aligned_of(number, 3).as_str());
    s.append("] ");
    s
}

/// The line of an END.
pub open spec fn end_line(number: nat) -> Seq<char> {
    numbered(number) + "END\n"@
}

fn end_line_of(number: u128) -> (s: String)
    ensures
        s@ == end_line(number as nat),
{
    let mut s: String = numbered_of(number);
    s.append("END\n");
    s
}

// ---------------------------------------------------------------------------
//  The encoder
// ---------------------------------------------------------------------------

/// The line of a COPY that stands for `new[at..at + len]`.
pub open spec fn copy_line(number: nat, src_offset: nat, len: nat, at: nat) -> Seq<char> {
    numbered(number) + "COPY  src_offset="@ + left_aligned(src_offset, 6) + " len="@
        + left_aligned(len, 6) + " old["@ + span(src_offset, len) + "] -> new["@ + span(at, len)
        + "]\n"@
}

fn copy_line_of(number: u128, src_offset: usize, len: usize, at: usize) -> (s: String)
    ensures
        s@ == copy_line(number as nat, src_offset as nat, len as nat, at as nat),
{
    let mut s: String = numbered_of(number);
    s.append("COPY  src_offset=");
    s.append(left_aligned_of(src_offset as u128, 6).as_str());
    s.append(" len=");
    s.append(left_aligned_of(len as u128, 6).as_str());
    s.append(" old[");
    s.append(span_of(src_offset, len).as_str());
    s.append("] -> new[");
    s.append(span_of(at, len).as_str());
    s.append("]\n");
    s
}

/// The line of an ADD of `new[at..at + len]`.
pub open spec fn add_line(number: nat, len: nat, at: nat) -> Seq<char> {
    numbered(number) + "ADD   len="@ + left_aligned(len, 6) + " new["@ + span(at, len) + "]\n"@
}

fn add_line_of(number: u128, len: usize, at: usize) -> (s: String)
    ensures
        s@ == add_line(number as nat, len as nat, at as nat),
{
    let mut s: String = numbered_of(number);
    s.append("ADD   len=");
    s.append(left_aligned_of(len as u128, 6).as_str());
    s.append(" new[");
    s.append(span_of(at, len).as_str());
    s.append("]\n");
    s
}

/// The line of an opcode before END.
pub open spec fn op_line(number: nat, op: EncodedOp) -> Seq<char> {
    match op {
        EncodedOp::Copy { src_offset, len, new_pos } => copy_line(
            number,
            src_offset as nat,
            len as nat,
            new_pos as nat,
        ),
        EncodedOp::Add { start, len } => add_line(number, len as nat, start as nat),
    }
}

/// The lines of the opcodes before END, numbered from 1.
pub open spec fn op_lines(ops: Seq<EncodedOp>) -> Seq<char>
    decreases ops.len(),
{
    if ops.len() == 0 {
        Seq::empty()
    } else {
        op_lines(ops.drop_last()) + op_line(ops.len(), ops.last())
    }
}

fn op_lines_of(ops: &[EncodedOp]) -> (s: String)
    ensures
        s@ == op_lines(ops@),
{
    let mut s: String = String::new();
    let mut i: usize = 0;
    while i < ops.len()
        invariant
            i <= ops@.len(),
            s@ == op_lines(ops@.take(i as int)),
        decreases ops@.len() - i,
    {
        let number: u128 = i as u128 + 1;
        let line: String = match ops[i] {
            EncodedOp::Copy { src_offset, len, new_pos } => copy_line_of(
                number,
                src_offset,
                len,
                new_pos,
            ),
            EncodedOp::Add { start, len } => add_line_of(number, len, start),
        };
        s.append(line.as_str());
        assert(ops@.take(i + 1).drop_last() =~= ops@.take(i as int));
        i = i + 1;
    }
    assert(ops@.take(i as int) =~= ops@);
    s
}

/// Offsets, one after the other.
pub open spec fn listed(offsets: Seq<usize>) -> Seq<char>
    decreases offsets.len(),
{
    if offsets.len() == 0 {
        Seq::empty()
    } else if offsets.len() == 1 {
        decimal(offsets[0] as nat)
    } else {
        listed(offsets.drop_last()) + ", "@ + decimal(offsets.last() as nat)
    }
}

fn listed_of(offsets: &[usize]) -> (s: String)
    ensures
        s@ == listed(offsets@),
{
    if offsets.len() == 0 {
        return String::new();
    }
    let mut s: String = decimal_of(offsets[0] as u128);
    let mut i: usize = 1;
    while i < offsets.len()
        invariant
            1 <= i <= offsets@.len(),
            s@ == listed(offsets@.take(i as int)),
        decreases offsets@.len() - i,
    {
        s.append(", ");
        s.append(decimal_of(offsets[i] as u128).as_str());
        assert(offsets@.take(i + 1).drop_last() =~= offsets@.take(i as int));
        i = i + 1;
    }
    assert(offsets@.take(i as int) =~= offsets@);
    s
}

/// The line of a hash and the offsets of its windows; only the first two of them are listed
/// where there are more than four.
pub open spec fn hash_line(hash: u32, offsets: Seq<usize>) -> Seq<char> {
    let start = "  hash 0x"@ + hexadecimal(hash as nat, 8) + " -> offsets ["@;
    if offsets.len() <= 4 {
        start + listed(offsets) + "]\n"@
    } else {
        start + listed(offsets.take(2)) + ", ... +"@ + decimal((offsets.len() - 2) as nat)
            + " more]\n"@
    }
}

fn hash_line_of(hash: u32, offsets: &[usize]) -> (s: String)
    ensures
        s@ == hash_line(hash, offsets@),
{
    let mut s: String = "  hash 0x".to_owned();
    s.append(hexadecimal_of(hash, 8).as_str());
    s.append(" -> offsets [");
    if offsets.len() <= 4 {
        s.append(listed_of(offsets).as_str());
        s.append("]\n");
    } else {
        let first: &[usize] = vstd::slice::slice_subrange(offsets, 0, 2);
        assert(first@ =~= offsets@.take(2));
        s.append(listed_of(first).as_str());
        s.append(", ... +");
        s.append(decimal_of((offsets.len() - 2) as u128).as_str());
        s.append(" more]\n");
    }
    s
}

/// The hash table of `old`: each hash of a window with the offsets of its windows, in the order
/// in which the hashes first occur.
pub open spec fn hash_table(old: Seq<u8>) -> Seq<(u32, Seq<usize>)> {
    let count = encoder::window_count(old.len());
    encoder::first_positions(old, count).map_values(
        |at: usize|
            (
                encoder::hash_at(old, at as int),
                encoder::positions(old, encoder::hash_at(old, at as int), count),
            ),
    )
}

/// The lines of a hash table.
pub open spec fn hash_lines(table: Seq<(u32, Seq<usize>)>) -> Seq<char>
    decreases table.len(),
{
    if table.len() == 0 {
        Seq::empty()
    } else {
        hash_lines(table.drop_last()) + hash_line(table.last().0, table.last().1)
    }
}

fn hash_lines_of(entries: &[HashEntry], Ghost(table): Ghost<Seq<(u32, Seq<usize>)>>) -> (s: String)
    requires
        entries@.len() == table.len(),
        forall|k: int|
            0 <= k < table.len() ==> (#[trigger] entries@[k]).hash == table[k].0
                && entries@[k].positions@ == table[k].1,
    ensures
        s@ == hash_lines(table),
{
    let mut s: String = String::new();
    let mut i: usize = 0;
    while i < entries.len()
        invariant
            i <= entries@.len(),
            entries@.len() == table.len(),
            forall|k: int|
                0 <= k < table.len() ==> (#[trigger] entries@[k]).hash == table[k].0
                    && entries@[k].positions@ == table[k].1,
            s@ == hash_lines(table.take(i as int)),
        decreases entries@.len() - i,
    {
        s.append(hash_line_of(entries[i].hash, entries[i].positions.as_slice()).as_str());
        assert(table.take(i + 1).drop_last() =~= table.take(i as int));
        i = i + 1;
    }
    assert(table.take(i as int) =~= table);
    s
}

/// The beginning of the encoder's report.
pub open spec fn encoder_head(old_len: nat, new_len: nat) -> Seq<char> {
    "=== Delta Encoder ===\n"@ + "  old size: "@ + decimal(old_len) + " bytes\n"@ + "  new size: "@
        + decimal(new_len) + " bytes\n"@ + "  window:   "@ + decimal(WINDOW_SIZE as nat)
        + " bytes\n"@ + "  min match: "@ + decimal(MIN_MATCH_LEN as nat) + " bytes\n"@
        + "  max candidates: "@ + decimal(MAX_CANDIDATES as nat) + "\n"@
}

fn encoder_head_of(old_len: usize, new_len: usize) -> (s: String)
    ensures
        s@ == encoder_head(old_len as nat, new_len as nat),
{
    let mut s: String = "=== Delta Encoder ===\n".to_owned();
    s.append("  old size: ");
    s.append(decimal_of(old_len as u128).as_str());
    s.append(" bytes\n");
    s.append("  new size: ");
    s.append(decimal_of(new_len as u128).as_str());
    s.append(" bytes\n");
    s.append("  window:   ");
    s.append(decimal_of(WINDOW_SIZE as u128).as_str());
    s.append(" bytes\n");
    s.append("  min match: ");
    s.append(decimal_of(MIN_MATCH_LEN as u128).as_str());
    s.append(" bytes\n");
    s.append("  max candidates: ");
    s.append(decimal_of(MAX_CANDIDATES as u128).as_str());
    s.append("\n");
    s
}

/// The part of the encoder's report on the hash table.
pub open spec fn table_section(table: Seq<(u32, Seq<usize>)>) -> Seq<char> {
    "\n--- Hash Table ("@ + decimal(table.len()) + " unique hashes) ---\n"@ + hash_lines(table)
        + "--- End Hash Table ---\n\n"@
}

/// The end of the encoder's report.
pub open spec fn encoder_summary(opcodes: nat, patch_len: nat, new_len: nat) -> Seq<char> {
    "\n=== Summary: "@ + decimal(opcodes) + " opcodes, "@ + decimal(patch_len)
        + " bytes patch payload (vs "@ + decimal(new_len) + " bytes new) ===\n"@
}

fn encoder_summary_of(opcodes: u128, patch_len: usize, new_len: usize) -> (s: String)
    ensures
        s@ == encoder_summary(opcodes as nat, patch_len as nat, new_len as nat),
{
    let mut s: String = "\n=== Summary: ".to_owned();
    s.append(decimal_of(opcodes).as_str());
    s.append(" opcodes, ");
    s.append(decimal_of(patch_len as u128).as_str());
    s.append(" bytes patch payload (vs ");
    s.append(decimal_of(new_len as u128).as_str());
    s.append(" bytes new) ===\n");
    s
}

/// The encoder's report on the patch from `old` to `new`: the sizes, the hash table of `old`, a
/// numbered line for every opcode in order, and a summary.
pub open spec fn encoder_text(old: Seq<u8>, new: Seq<u8>) -> Seq<char> {
    let head = encoder_head(old.len(), new.len());
    if new.len() == 0 {
        head + "\n[opcode] END  (empty target)\n"@
    } else {
        let ops = encoder::plan(old, new, Seq::empty(), 0, 0);
        let patch = encoder::patch_of(old, new, Seq::empty());
        head + table_section(hash_table(old)) + op_lines(ops) + end_line(ops.len() + 1)
            + encoder_summary(ops.len() + 1, patch.len(), new.len())
    }
}

/// Writes the encoder's report.
pub(crate) fn encoder_text_of(
    old: &[u8],
    new: &[u8],
    table: &[HashEntry],
    ops: &[EncodedOp],
    patch_len: usize,
) -> (s: String)
    requires
        ops@ == encoder::plan(old@, new@, Seq::empty(), 0, 0),
        patch_len == encoder::patch_of(old@, new@, Seq::empty()).len(),
        new@.len() > 0 ==> encoder::lists_table(table@, old@),
    ensures
        s@ == encoder_text(old@, new@),
{
    let mut s: String = encoder_head_of(old.len(), new.len());
    if new.len() == 0 {
        s.append("\n[opcode] END  (empty target)\n");
        return s;
    }
    let ghost lines = hash_table(old@);
    let mut section: String = "\n--- Hash Table (".to_owned();
    section.append(decimal_of(table.len() as u128).as_str());
    section.append(" unique hashes) ---\n");
    proof {
        let firsts = encoder::first_positions(old@, encoder::window_count(old@.len()));
        assert forall|k: int| 0 <= k < lines.len() implies (#[trigger] table@[k]).hash
            == lines[k].0 && table@[k].positions@ == lines[k].1 by {
            assert(encoder::is_entry(table@[k], old@, firsts[k]));
        }
    }
    section.append(hash_lines_of(table, Ghost(lines)).as_str());
    section.append("--- End Hash Table ---\n\n");
    s.append(section.as_str());
    s.append(op_lines_of(ops).as_str());
    let opcodes: u128 = ops.len() as u128 + 1;
    s.append(end_line_of(opcodes).as_str());
    s.append(encoder_summary_of(opcodes, patch_len, new.len()).as_str());
    s
}

// ---------------------------------------------------------------------------
//  The decoder
// ---------------------------------------------------------------------------

/// The line of a decoded opcode.
pub open spec fn decoded_line(number: nat, op: DecodedOp) -> Seq<char> {
    match op {
        DecodedOp::Copy { src_offset, len, write_pos } => numbered(number) + "COPY  src_offset="@
            + left_aligned(src_offset as nat, 6) + " len="@ + left_aligned(len as nat, 6)
            + " base["@ + span(src_offset as nat, len as nat) + "] -> out["@ + span(
            write_pos as nat,
            len as nat,
        ) + "]\n"@,
        DecodedOp::Add { data_start, len, write_pos } => numbered(number) + "ADD   len="@
            + left_aligned(len as nat, 6) + " patch["@ + span(data_start as nat, len as nat)
            + "] -> out["@ + span(write_pos as nat, len as nat) + "]\n"@,
        DecodedOp::End => end_line(number),
    }
}

fn decoded_line_of(number: u128, op: DecodedOp) -> (s: String)
    ensures
        s@ == decoded_line(number as nat, op),
{
    match op {
        DecodedOp::Copy { src_offset, len, write_pos } => {
            let mut s: String = numbered_of(number);
            s.append("COPY  src_offset=");
            s.append(left_aligned_of(src_offset as u128, 6).as_str());
            s.append(" len=");
            s.append(left_aligned_of(len as u128, 6).as_str());
            s.append(" base[");
            s.append(span_of(src_offset as usize, len as usize).as_str());
            s.append("] -> out[");
            s.append(span_of(write_pos as usize, len as usize).as_str());
            s.append("]\n");
            s
        },
        DecodedOp::Add { data_start, len, write_pos } => {
            let mut s: String = numbered_of(number);
            s.append("ADD   len=");
            s.append(left_aligned_of(len as u128, 6).as_str());
            s.append(" patch[");
            s.append(span_of(data_start, len as usize).as_str());
            s.append("] -> out[");
            s.append(span_of(write_pos as usize, len as usize).as_str());
            s.append("]\n");
            s
        },
        DecodedOp::End => end_line_of(number),
    }
}

/// The lines of decoded opcodes, numbered from 1.
pub open spec fn decoded_lines(ops: Seq<DecodedOp>) -> Seq<char>
    decreases ops.len(),
{
    if ops.len() == 0 {
        Seq::empty()
    } else {
        decoded_lines(ops.drop_last()) + decoded_line(ops.len(), ops.last())
    }
}

fn decoded_lines_of(ops: &[DecodedOp]) -> (s: String)
    ensures
        s@ == decoded_lines(ops@),
{
    let mut s: String = String::new();
    let mut i: usize = 0;
    while i < ops.len()
        invariant
            i <= ops@.len(),
            s@ == decoded_lines(ops@.take(i as int)),
        decreases ops@.len() - i,
    {
        s.append(decoded_line_of(i as u128 + 1, ops[i]).as_str());
        assert(ops@.take(i + 1).drop_last() =~= ops@.take(i as int));
        i = i + 1;
    }
    assert(ops@.take(i as int) =~= ops@);
    s
}

/// The beginning of the decoder's report.
pub open spec fn decoder_head(patch_len: nat, base_len: nat, target_size: nat) -> Seq<char> {
    "=== Delta Decoder Report ===\n"@ + "  patch payload size: "@ + decimal(patch_len)
        + " bytes\n"@ + "  base CBF size:      "@ + decimal(base_len) + " bytes\n"@
        + "  target size:        "@ + decimal(target_size) + " bytes\n\n"@
}

/// The end of the decoder's report on a patch that could be decoded.
pub open spec fn decoder_summary(opcodes: nat, consumed: nat, image: Seq<u8>) -> Seq<char> {
    "\n=== Summary: "@ + decimal(opcodes) + " opcodes, "@ + decimal(consumed)
        + " bytes consumed, "@ + decimal(image.len()) + " bytes reconstructed ===\n"@
        + "  reconstructed CRC32: 0x"@ + hexadecimal(crc::crc32_of(image) as nat, 8) + "\n"@
}

/// The decoder's report on a patch: the sizes, a numbered line for every opcode in order up to
/// END or the first error, and a summary unless there was an error.
pub open spec fn decoder_text(patch: Seq<u8>, old: Seq<u8>, target_size: u32) -> Seq<char> {
    let ops = patch::trace(
        DecoderState::fresh(patch.len() as u32, old.len() as u32, target_size),
        patch,
        0,
    );
    let text = decoder_head(patch.len(), old.len(), target_size as nat) + decoded_lines(ops);
    match patch::apply(patch, old, target_size) {
        Ok(image) => text + decoder_summary(ops.len(), patch::wire_len(ops), image),
        Err(_) => text,
    }
}

/// Writes the decoder's report.
pub(crate) fn decoder_text_of(
    patch: &[u8],
    old: &[u8],
    target_size: u32,
    ops: &[DecodedOp],
    consumed: usize,
    outcome: &Result<Vec<u8>, DecodeError>,
) -> (s: String)
    requires
        ops@ == patch::trace(
            DecoderState::fresh(patch@.len() as u32, old@.len() as u32, target_size),
            patch@,
            0,
        ),
        consumed == patch::wire_len(ops@),
        crate::decoder::same_image(*outcome, patch::apply(patch@, old@, target_size)),
    ensures
        s@ == decoder_text(patch@, old@, target_size),
{
    let mut s: String = "=== Delta Decoder Report ===\n".to_owned();
    s.append("  patch payload size: ");
    s.append(decimal_of(patch.len() as u128).as_str());
    s.append(" bytes\n");
    s.append("  base CBF size:      ");
    s.append(decimal_of(old.len() as u128).as_str());
    s.append(" bytes\n");
    s.append("  target size:        ");
    s.append(decimal_of(target_size as u128).as_str());
    s.append(" bytes\n\n");
    s.append(decoded_lines_of(ops).as_str());
    if let Ok(image) = outcome {
        let mut summary: String = "\n=== Summary: ".to_owned();
        summary.append(decimal_of(ops.len() as u128).as_str());
        summary.append(" opcodes, ");
        summary.append(decimal_of(consumed as u128).as_str());
        summary.append(" bytes consumed, ");
        summary.append(decimal_of(image.len() as u128).as_str());
        summary.append(" bytes reconstructed ===\n");
        summary.append("  reconstructed CRC32: 0x");
        summary.append(hexadecimal_of(crc32b(image), 8).as_str());
        summary.append("\n");
        s.append(summary.as_str());
    }
    s
}

// ---------------------------------------------------------------------------
//  Laws
// ---------------------------------------------------------------------------

/// The line in the encoder's report of an opcode that stands in the patch.
pub open spec fn patch_line(number: nat, op: DecodedOp) -> Seq<char> {
    match op {
        DecodedOp::Copy { src_offset, len, write_pos } => copy_line(
            number,
            src_offset as nat,
            len as nat,
            write_pos as nat,
        ),
        DecodedOp::Add { len, write_pos, .. } => add_line(number, len as nat, write_pos as nat),
        DecodedOp::End => end_line(number),
    }
}

/// The lines in the encoder's report of the opcodes that stand in the patch, numbered from 1.
pub open spec fn patch_lines(ops: Seq<DecodedOp>) -> Seq<char>
    decreases ops.len(),
{
    if ops.len() == 0 {
        Seq::empty()
    } else {
        patch_lines(ops.drop_last()) + patch_line(ops.len(), ops.last())
    }
}

/// Opcodes that are decoded one for one have the same lines.
proof fn lemma_same_lines(list: Seq<DecodedOp>, ops: Seq<EncodedOp>)
    requires
        list.len() == ops.len(),
        forall|k: int|
            0 <= k < ops.len() ==> roundtrip::is_decoded_from(#[trigger] list[k], ops[k]),
    ensures
        patch_lines(list) == op_lines(ops),
    decreases ops.len(),
{
    if ops.len() > 0 {
        lemma_same_lines(list.drop_last(), ops.drop_last());
        assert(roundtrip::is_decoded_from(list[ops.len() - 1], ops[ops.len() - 1]));
    }
}

/// The encoder's report starts with its name.
pub proof fn law_encoder_report_starts_with_its_name(old: Seq<u8>, new: Seq<u8>)
    ensures
        "=== Delta Encoder ===\n"@.is_prefix_of(encoder_text(old, new)),
{
    let name = "=== Delta Encoder ===\n"@;
    let head = encoder_head(old.len(), new.len());
    assert(head.take(name.len() as int) =~= name);
    assert(encoder_text(old, new).take(name.len() as int) =~= head.take(name.len() as int));
}

/// The encoder's report lists the hash table of `old`, and then the opcodes of the patch that
/// is handed out: one numbered line for each COPY, ADD and END in it, in order.
pub proof fn law_encoder_report_lists_the_patch(old: Seq<u8>, new: Seq<u8>, target_size: u32)
    requires
        new.len() > 0,
        old.len() <= usize::MAX,
        old.len() <= u32::MAX,
        new.len() <= usize::MAX,
        new.len() <= target_size,
        encoder::patch_of(old, new, Seq::empty()).len() <= u32::MAX,
    ensures
        ({
            let p = encoder::patch_of(old, new, Seq::empty());
            let ops = patch::trace(
                DecoderState::fresh(p.len() as u32, old.len() as u32, target_size),
                p,
                0,
            );
            encoder_text(old, new) == encoder_head(old.len(), new.len()) + table_section(
                hash_table(old),
            ) + patch_lines(ops) + encoder_summary(ops.len(), p.len(), new.len())
        }),
{
    let p = encoder::patch_of(old, new, Seq::empty());
    let plan = encoder::plan(old, new, Seq::empty(), 0, 0);
    let ops = patch::trace(
        DecoderState::fresh(p.len() as u32, old.len() as u32, target_size),
        p,
        0,
    );
    roundtrip::law_patch_holds_its_plan(old, new, Seq::empty(), target_size);
    assert forall|k: int| 0 <= k < plan.len() implies roundtrip::is_decoded_from(
        #[trigger] ops.drop_last()[k],
        plan[k],
    ) by {
        assert(ops.drop_last()[k] == ops[k]);
    }
    lemma_same_lines(ops.drop_last(), plan);
    let start = encoder_head(old.len(), new.len()) + table_section(hash_table(old));
    let end = end_line(plan.len() + 1);
    assert(patch_lines(ops) == op_lines(plan) + end);
    assert(start + op_lines(plan) + end =~= start + (op_lines(plan) + end));
}

/// Every window of an image has a hash that first occurs somewhere.
proof fn lemma_first_position(old: Seq<u8>, n: nat, i: nat)
    requires
        i < n <= usize::MAX,
    ensures
        exists|k: int|
            0 <= k < encoder::first_positions(old, n).len() && encoder::hash_at(
                old,
                #[trigger] encoder::first_positions(old, n)[k] as int,
            ) == encoder::hash_at(old, i as int),
    decreases n,
{
    let before = encoder::first_positions(old, (n - 1) as nat);
    let all = encoder::first_positions(old, n);
    let h = encoder::hash_at(old, n - 1);
    let earlier = encoder::positions(old, h, (n - 1) as nat);
    if i == n - 1 && earlier.len() == 0 {
        assert(all[before.len() as int] == n - 1);
    } else {
        let j: nat = if i < n - 1 {
            i
        } else {
            encoder::lemma_positions_below(old, h, (n - 1) as nat);
            earlier[0] as nat
        };
        lemma_first_position(old, (n - 1) as nat, j);
        let k = choose|k: int|
            0 <= k < before.len() && encoder::hash_at(old, #[trigger] before[k] as int)
                == encoder::hash_at(old, j as int);
        assert(all[k] == before[k]);
    }
}

/// A position is among those of the windows with its hash.
proof fn lemma_own_position(old: Seq<u8>, n: nat, i: nat)
    requires
        i < n <= usize::MAX,
    ensures
        encoder::positions(old, encoder::hash_at(old, i as int), n).contains(i as usize),
    decreases n,
{
    let h = encoder::hash_at(old, i as int);
    let all = encoder::positions(old, h, n);
    let before = encoder::positions(old, h, (n - 1) as nat);
    if i == n - 1 {
        assert(all[before.len() as int] == i as usize);
    } else {
        lemma_own_position(old, (n - 1) as nat, i);
        let k = choose|k: int| 0 <= k < before.len() && before[k] == i as usize;
        assert(all[k] == i as usize);
    }
}

/// The hash table in the report has every window of the old image, under its hash.
pub proof fn law_table_lists_every_window(old: Seq<u8>, i: nat)
    requires
        old.len() <= usize::MAX,
        i < encoder::window_count(old.len()),
    ensures
        exists|k: int|
            0 <= k < hash_table(old).len() && (#[trigger] hash_table(old)[k]).0 == encoder::hash_at(
                old,
                i as int,
            ) && hash_table(old)[k].1.contains(i as usize),
{
    let count = encoder::window_count(old.len());
    let firsts = encoder::first_positions(old, count);
    lemma_first_position(old, count, i);
    lemma_own_position(old, count, i);
    let k = choose|k: int|
        0 <= k < firsts.len() && encoder::hash_at(old, #[trigger] firsts[k] as int)
            == encoder::hash_at(old, i as int);
    assert(hash_table(old)[k].0 == encoder::hash_at(old, i as int));
}

/// What the line of each opcode says: its number, and then, for a COPY, where it copies from, how
/// much, and to where; for an ADD, how much it adds and to where.
pub proof fn law_lines_say_what_the_opcodes_do(number: nat, from: nat, len: nat, at: nat)
    ensures
        copy_line(number, from, len, at) == "[opcode #"@ + right_aligned(number, 3)
            + "] "@ + "COPY  src_offset="@ + left_aligned(from, 6) + " len="@ + left_aligned(len, 6)
            + " old["@ + decimal(from) + ".."@ + decimal(from + len) + "] -> new["@ + decimal(at)
            + ".."@ + decimal(at + len) + "]\n"@,
        add_line(number, len, at) == "[opcode #"@ + right_aligned(number, 3) + "] "@
            + "ADD   len="@ + left_aligned(len, 6) + " new["@ + decimal(at) + ".."@ + decimal(
            at + len,
        ) + "]\n"@,
        end_line(number) == "[opcode #"@ + right_aligned(number, 3) + "] "@ + "END\n"@,
{
    let start = "[opcode #"@ + right_aligned(number, 3) + "] "@;
    let copy = start + "COPY  src_offset="@ + left_aligned(from, 6) + " len="@ + left_aligned(
        len,
        6,
    ) + " old["@;
    assert(copy_line(number, from, len, at) =~= copy + decimal(from) + ".."@ + decimal(from + len)
        + "] -> new["@ + decimal(at) + ".."@ + decimal(at + len) + "]\n"@);
    assert(add_line(number, len, at) =~= start + "ADD   len="@ + left_aligned(len, 6) + " new["@
        + decimal(at) + ".."@ + decimal(at + len) + "]\n"@);
}

/// What the line of each decoded opcode says: its number, and then, for a COPY, which part of the
/// base goes to which part of the output; for an ADD, which part of the patch does.
pub proof fn law_decoded_lines_say_what_the_opcodes_do(
    number: nat,
    src_offset: u32,
    data_start: usize,
    len: u32,
    write_pos: u32,
)
    ensures
        decoded_line(number, DecodedOp::Copy { src_offset, len, write_pos }) == "[opcode #"@
            + right_aligned(number, 3) + "] "@ + "COPY  src_offset="@ + left_aligned(
            src_offset as nat,
            6,
        ) + " len="@ + left_aligned(len as nat, 6) + " base["@ + decimal(src_offset as nat) + ".."@
            + decimal((src_offset + len) as nat) + "] -> out["@ + decimal(write_pos as nat) + ".."@
            + decimal((write_pos + len) as nat) + "]\n"@,
        decoded_line(number, DecodedOp::Add { data_start, len, write_pos }) == "[opcode #"@
            + right_aligned(number, 3) + "] "@ + "ADD   len="@ + left_aligned(len as nat, 6)
            + " patch["@ + decimal(data_start as nat) + ".."@ + decimal((data_start + len) as nat)
            + "] -> out["@ + decimal(write_pos as nat) + ".."@ + decimal((write_pos + len) as nat)
            + "]\n"@,
        decoded_line(number, DecodedOp::End) == "[opcode #"@ + right_aligned(number, 3) + "] "@
            + "END\n"@,
{
    let start = "[opcode #"@ + right_aligned(number, 3) + "] "@;
    let copy = start + "COPY  src_offset="@ + left_aligned(src_offset as nat, 6) + " len="@
        + left_aligned(len as nat, 6) + " base["@;
    assert(decoded_line(number, DecodedOp::Copy { src_offset, len, write_pos }) =~= copy + decimal(
        src_offset as nat,
    ) + ".."@ + decimal((src_offset + len) as nat) + "] -> out["@ + decimal(write_pos as nat)
        + ".."@ + decimal((write_pos + len) as nat) + "]\n"@);
    let add = start + "ADD   len="@ + left_aligned(len as nat, 6) + " patch["@;
    assert(decoded_line(number, DecodedOp::Add { data_start, len, write_pos }) =~= add + decimal(
        data_start as nat,
    ) + ".."@ + decimal((data_start + len) as nat) + "] -> out["@ + decimal(write_pos as nat)
        + ".."@ + decimal((write_pos + len) as nat) + "]\n"@);
}

/// Lines follow each other in the order of what they are for, and opcodes are numbered on from 1.
pub proof fn law_lines_come_in_order(
    ops: Seq<EncodedOp>,
    op: EncodedOp,
    list: Seq<DecodedOp>,
    decoded: DecodedOp,
    table: Seq<(u32, Seq<usize>)>,
    entry: (u32, Seq<usize>),
)
    ensures
        op_lines(Seq::empty()) == Seq::<char>::empty(),
        op_lines(ops.push(op)) == op_lines(ops) + (match op {
            EncodedOp::Copy { src_offset, len, new_pos } => copy_line(
                ops.len() + 1,
                src_offset as nat,
                len as nat,
                new_pos as nat,
            ),
            EncodedOp::Add { start, len } => add_line(ops.len() + 1, len as nat, start as nat),
        }),
        decoded_lines(Seq::empty()) == Seq::<char>::empty(),
        decoded_lines(list.push(decoded)) == decoded_lines(list) + decoded_line(
            list.len() + 1,
            decoded,
        ),
        hash_lines(Seq::empty()) == Seq::<char>::empty(),
        hash_lines(table.push(entry)) == hash_lines(table) + hash_line(entry.0, entry.1),
{
    assert(ops.push(op).drop_last() =~= ops);
    assert(list.push(decoded).drop_last() =~= list);
    assert(table.push(entry).drop_last() =~= table);
}

/// What the line of a hash says: the hash, and the offsets of its windows; up to four are all
/// listed, and of more only the first two, with the number of the others.
pub proof fn law_hash_lines(hash: u32, offsets: Seq<usize>)
    ensures
        ({
            let start = "  hash 0x"@ + hexadecimal(hash as nat, 8) + " -> offsets ["@;
            let n = |i: int| decimal(offsets[i] as nat);
            &&& offsets.len() == 0 ==> hash_line(hash, offsets) == start + "]\n"@
            &&& offsets.len() == 1 ==> hash_line(hash, offsets) == start + n(0) + "]\n"@
            &&& offsets.len() == 2 ==> hash_line(hash, offsets) == start + n(0) + ", "@ + n(1)
                + "]\n"@
            &&& offsets.len() == 3 ==> hash_line(hash, offsets) == start + n(0) + ", "@ + n(1)
                + ", "@ + n(2) + "]\n"@
            &&& offsets.len() == 4 ==> hash_line(hash, offsets) == start + n(0) + ", "@ + n(1)
                + ", "@ + n(2) + ", "@ + n(3) + "]\n"@
            &&& offsets.len() > 4 ==> hash_line(hash, offsets) == start + n(0) + ", "@ + n(1)
                + ", ... +"@ + decimal((offsets.len() - 2) as nat) + " more]\n"@
        }),
{
    let start = "  hash 0x"@ + hexadecimal(hash as nat, 8) + " -> offsets ["@;
    let n = |i: int| decimal(offsets[i] as nat);
    let first = if offsets.len() > 4 {
        offsets.take(2)
    } else {
        offsets
    };
    lemma_listed(first);
    if offsets.len() == 0 {
        assert(hash_line(hash, offsets) =~= start + "]\n"@);
    } else if offsets.len() == 2 {
        assert(hash_line(hash, offsets) =~= start + n(0) + ", "@ + n(1) + "]\n"@);
    } else if offsets.len() == 3 {
        assert(hash_line(hash, offsets) =~= start + n(0) + ", "@ + n(1) + ", "@ + n(2) + "]\n"@);
    } else if offsets.len() == 4 {
        assert(hash_line(hash, offsets) =~= start + n(0) + ", "@ + n(1) + ", "@ + n(2) + ", "@ + n(
            3,
        ) + "]\n"@);
    } else if offsets.len() > 4 {
        assert(hash_line(hash, offsets) =~= start + n(0) + ", "@ + n(1) + ", ... +"@ + decimal(
            (offsets.len() - 2) as nat,
        ) + " more]\n"@);
    }
}

proof fn lemma_listed(offsets: Seq<usize>)
    requires
        offsets.len() <= 4,
    ensures
        ({
            let n = |i: int| decimal(offsets[i] as nat);
            &&& offsets.len() == 1 ==> listed(offsets) == n(0)
            &&& offsets.len() == 2 ==> listed(offsets) == n(0) + ", "@ + n(1)
            &&& offsets.len() == 3 ==> listed(offsets) == n(0) + ", "@ + n(1) + ", "@ + n(2)
            &&& offsets.len() == 4 ==> listed(offsets) == n(0) + ", "@ + n(1) + ", "@ + n(2) + ", "@
                + n(3)
        }),
    decreases offsets.len(),
{
    if offsets.len() > 1 {
        let shorter = offsets.drop_last();
        lemma_listed(shorter);
        assert(forall|i: int| 0 <= i < shorter.len() ==> shorter[i] == offsets[i]);
    }
}

/// The entries of the hash table: each has a hash and all the windows that have it, and they come in
/// the order in which their hashes first occur, each once.
pub proof fn law_table_entries(old: Seq<u8>, j: int, k: int, i: int)
    requires
        old.len() <= usize::MAX,
        0 <= j < hash_table(old).len(),
        0 <= k < hash_table(old).len(),
    ensures
        ({
            let (hash, offsets) = hash_table(old)[k];
            &&& offsets.len() > 0
            &&& 0 <= i && i + 16 <= old.len() && encoder::hash_of(old.subrange(i, i + 16)) == hash
                <==> exists|m: int| 0 <= m < offsets.len() && #[trigger] offsets[m] == i
            &&& j < k ==> hash_table(old)[j].1[0] < offsets[0] && hash_table(old)[j].0 != hash
        }),
{
    let count = encoder::window_count(old.len());
    let firsts = encoder::first_positions(old, count);
    let (hash, offsets) = hash_table(old)[k];
    greedy::law_windows_are_listed(old, hash, count, i);
    lemma_firsts(old, count, j);
    lemma_firsts(old, count, k);
    lemma_firsts_increase(old, count, j, k);
    assert(count == 0 || count + 15 == old.len());
}

/// The windows that come first with their hashes are below the bound, and the first of the windows
/// that are listed for them.
proof fn lemma_firsts(old: Seq<u8>, n: nat, k: int)
    requires
        n <= usize::MAX,
        0 <= k < encoder::first_positions(old, n).len(),
    ensures
        ({
            let at = encoder::first_positions(old, n)[k];
            let all = encoder::positions(old, encoder::hash_at(old, at as int), n);
            at < n && all.len() > 0 && all[0] == at
        }),
    decreases n,
{
    let firsts = encoder::first_positions(old, n);
    let before = encoder::first_positions(old, (n - 1) as nat);
    let h = encoder::hash_at(old, n - 1);
    if k < before.len() {
        lemma_firsts(old, (n - 1) as nat, k);
        assert(firsts[k] == before[k]);
        let at = firsts[k];
        let earlier = encoder::positions(old, encoder::hash_at(old, at as int), (n - 1) as nat);
        let all = encoder::positions(old, encoder::hash_at(old, at as int), n);
        assert(all[0] == earlier[0]);
    } else {
        assert(firsts[k] == n - 1);
        assert(encoder::positions(old, h, (n - 1) as nat).len() == 0);
    }
}

proof fn lemma_firsts_increase(old: Seq<u8>, n: nat, j: int, k: int)
    requires
        n <= usize::MAX,
        0 <= j < encoder::first_positions(old, n).len(),
        0 <= k < encoder::first_positions(old, n).len(),
    ensures
        j < k ==> encoder::first_positions(old, n)[j] < encoder::first_positions(old, n)[k],
    decreases n,
{
    let firsts = encoder::first_positions(old, n);
    let before = encoder::first_positions(old, (n - 1) as nat);
    if j < k {
        assert(firsts[j] == before[j]);
        if k < before.len() {
            lemma_firsts_increase(old, (n - 1) as nat, j, k);
            assert(firsts[k] == before[k]);
        } else {
            lemma_firsts(old, (n - 1) as nat, j);
        }
    }
}

/// What the encoder's report says before and behind its lines.
pub proof fn law_encoder_report_gives_the_sizes(
    old_len: nat,
    new_len: nat,
    opcodes: nat,
    patch_len: nat,
)
    ensures
        encoder_head(old_len, new_len) == "=== Delta Encoder ===\n"@ + "  old size: "@ + decimal(
            old_len,
        ) + " bytes\n"@ + "  new size: "@ + decimal(new_len) + " bytes\n"@ + "  window:   "@
            + decimal(16) + " bytes\n"@ + "  min match: "@ + decimal(10) + " bytes\n"@
            + "  max candidates: "@ + decimal(64) + "\n"@,
        encoder_summary(opcodes, patch_len, new_len) == "\n=== Summary: "@ + decimal(opcodes)
            + " opcodes, "@ + decimal(patch_len) + " bytes patch payload (vs "@ + decimal(new_len)
            + " bytes new) ===\n"@,
{
}

/// What the encoder's report says of an empty image, and round the lines of a hash table.
pub proof fn law_encoder_report_frames_its_table(old: Seq<u8>, table: Seq<(u32, Seq<usize>)>)
    ensures
        encoder_text(old, Seq::empty()) == encoder_head(old.len(), 0)
            + "\n[opcode] END  (empty target)\n"@,
        table_section(table) == "\n--- Hash Table ("@ + decimal(table.len())
            + " unique hashes) ---\n"@ + hash_lines(table) + "--- End Hash Table ---\n\n"@,
{
}

/// What the decoder's report says before and behind its lines: a patch that cannot be decoded has
/// no summary.
pub proof fn law_decoder_report_gives_the_outcome(patch: Seq<u8>, old: Seq<u8>, target_size: u32)
    ensures
        ({
            let ops = patch::trace(
                DecoderState::fresh(patch.len() as u32, old.len() as u32, target_size),
                patch,
                0,
            );
            let start = "=== Delta Decoder Report ===\n"@ + "  patch payload size: "@ + decimal(
                patch.len(),
            ) + " bytes\n"@ + "  base CBF size:      "@ + decimal(old.len()) + " bytes\n"@
                + "  target size:        "@ + decimal(target_size as nat) + " bytes\n\n"@
                + decoded_lines(ops);
            decoder_text(patch, old, target_size) == (match patch::apply(patch, old, target_size) {
                Err(_) => start,
                Ok(image) => start + ("\n=== Summary: "@ + decimal(ops.len()) + " opcodes, "@
                    + decimal(patch::wire_len(ops)) + " bytes consumed, "@ + decimal(image.len())
                    + " bytes reconstructed ===\n"@ + "  reconstructed CRC32: 0x"@ + hexadecimal(
                    crc::crc32_of(image) as nat,
                    8,
                ) + "\n"@),
            })
        }),
{
}

} // verus!

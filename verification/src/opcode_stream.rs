//! What opcode streams there are, and what the decoder makes of each.

use vstd::prelude::*;

use crate::decoder::DecoderState;
use crate::error::DecodeError;
use crate::le;
use crate::patch;
use crate::patch::DecodedOp;

verus! {

/// One part of an image, as an opcode gives it.
pub enum Piece {
    /// Bytes of the base.
    Copy { src_offset: u32, len: u32 },
    /// Bytes that stand in the stream.
    Add(Seq<u8>),
}

impl Piece {
    /// Whether the piece is to be had from a base of `base_len` bytes, and fits its opcode.
    pub open spec fn fits(self, base_len: nat) -> bool {
        match self {
            Piece::Copy { src_offset, len } => src_offset + len <= base_len,
            Piece::Add(data) => data.len() <= 0xFFFF_FFFF,
        }
    }

    /// The opcode.
    pub open spec fn wire(self) -> Seq<u8> {
        match self {
            Piece::Copy { src_offset, len } => seq![1u8] + le::u32_bytes(src_offset)
                + le::u32_bytes(len),
            Piece::Add(data) => seq![2u8] + le::u32_bytes(data.len() as u32) + data,
        }
    }

    /// The bytes of the piece.
    pub open spec fn bytes(self, base: Seq<u8>) -> Seq<u8> {
        match self {
            Piece::Copy { src_offset, len } => base.subrange(
                src_offset as int,
                src_offset + len,
            ),
            Piece::Add(data) => data,
        }
    }

    /// What is recorded of the opcode when it stands at `pos` of the stream, and `written` bytes
    /// of the image come before its own.
    pub open spec fn record(self, pos: nat, written: nat) -> DecodedOp {
        match self {
            Piece::Copy { src_offset, len } => DecodedOp::Copy {
                src_offset,
                len,
                write_pos: written as u32,
            },
            Piece::Add(data) => DecodedOp::Add {
                data_start: (pos + 5) as usize,
                len: data.len() as u32,
                write_pos: written as u32,
            },
        }
    }
}

/// Whether all the pieces fit.
pub open spec fn all_fit(pieces: Seq<Piece>, base_len: nat) -> bool {
    forall|k: int| 0 <= k < pieces.len() ==> (#[trigger] pieces[k]).fits(base_len)
}

/// The opcodes of the pieces, one after the other.
pub open spec fn stream_of(pieces: Seq<Piece>) -> Seq<u8>
    decreases pieces.len(),
{
    if pieces.len() == 0 {
        Seq::empty()
    } else {
        pieces[0].wire() + stream_of(pieces.drop_first())
    }
}

/// The bytes of the pieces, one after the other.
pub open spec fn image_of(pieces: Seq<Piece>, base: Seq<u8>) -> Seq<u8>
    decreases pieces.len(),
{
    if pieces.len() == 0 {
        Seq::empty()
    } else {
        pieces[0].bytes(base) + image_of(pieces.drop_first(), base)
    }
}

/// What is recorded of the opcodes, the first of which stands at `pos` of the stream, when
/// `written` bytes of the image come before them.
pub open spec fn records_of(pieces: Seq<Piece>, base: Seq<u8>, pos: nat, written: nat) -> Seq<
    DecodedOp,
>
    decreases pieces.len(),
{
    if pieces.len() == 0 {
        Seq::empty()
    } else {
        seq![pieces[0].record(pos, written)] + records_of(
            pieces.drop_first(),
            base,
            pos + pieces[0].wire().len(),
            written + pieces[0].bytes(base).len(),
        )
    }
}

/// A decoder between two opcodes.
pub open spec fn between(
    total_size: nat,
    consumed: nat,
    base_size: nat,
    target_size: nat,
    write_pos: nat,
) -> DecoderState {
    DecoderState {
        total_size,
        consumed,
        base_size,
        target_size,
        write_pos,
        done: false,
        pending_add: None,
    }
}

/// Where a number was written, it is read.
proof fn lemma_number(front: Seq<u8>, x: u32, back: Seq<u8>)
    ensures
        le::u32_at(front + le::u32_bytes(x) + back, front.len() as int) == x,
{
    let s = front + le::u32_bytes(x) + back;
    let at = front.len() as int;
    assert(s.subrange(at, at + 4) =~= le::u32_bytes(x));
    le::lemma_u32_write_read(s, at, x);
}

/// The step that the decoder takes at a piece.
proof fn lemma_piece(d: DecoderState, piece: Piece, rest: Seq<u8>, base: Seq<u8>, pos: nat)
    requires
        !d.done,
        d.pending_add is None,
        piece.fits(d.base_size),
        d.base_size <= base.len(),
        d.write_pos + piece.bytes(base).len() <= d.target_size,
        d.consumed + piece.wire().len() + 1 <= d.total_size,
    ensures
        ({
            let stream = piece.wire() + rest;
            let after = DecoderState {
                consumed: d.consumed + piece.wire().len(),
                write_pos: d.write_pos + piece.bytes(base).len(),
                ..d
            };
            &&& patch::decode(d, stream, base) == patch::prepend(
                piece.bytes(base),
                patch::decode(after, rest, base),
            )
            &&& patch::trace(d, stream, pos) == seq![piece.record(pos, d.write_pos)]
                + patch::trace(after, rest, pos + piece.wire().len())
        }),
{
    let stream = piece.wire() + rest;
    patch::lemma_step(d, stream, base, pos);
    assert(stream[0] == piece.wire()[0]);
    match piece {
        Piece::Copy { src_offset, len } => {
            lemma_number(seq![1u8], src_offset, le::u32_bytes(len) + rest);
            lemma_number(seq![1u8] + le::u32_bytes(src_offset), len, rest);
            assert(stream =~= seq![1u8] + le::u32_bytes(src_offset) + (le::u32_bytes(len) + rest));
            assert(stream =~= (seq![1u8] + le::u32_bytes(src_offset)) + le::u32_bytes(len) + rest);
            assert(stream.skip(9) =~= rest);
        },
        Piece::Add(data) => {
            let len = data.len() as u32;
            lemma_number(seq![2u8], len, data + rest);
            assert(stream =~= seq![2u8] + le::u32_bytes(len) + (data + rest));
            assert(stream.skip(5 + len) =~= rest);
            assert(stream.subrange(5, 5 + len) =~= data);
        },
    }
}

/// The steps that the decoder takes at a run of pieces.
proof fn lemma_pieces(d: DecoderState, pieces: Seq<Piece>, rest: Seq<u8>, base: Seq<u8>, pos: nat)
    requires
        !d.done,
        d.pending_add is None,
        all_fit(pieces, d.base_size),
        d.base_size <= base.len(),
        d.write_pos + image_of(pieces, base).len() <= d.target_size,
        d.consumed + stream_of(pieces).len() + 1 <= d.total_size,
    ensures
        ({
            let stream = stream_of(pieces) + rest;
            let after = DecoderState {
                consumed: d.consumed + stream_of(pieces).len(),
                write_pos: d.write_pos + image_of(pieces, base).len(),
                ..d
            };
            &&& patch::decode(d, stream, base) == patch::prepend(
                image_of(pieces, base),
                patch::decode(after, rest, base),
            )
            &&& patch::trace(d, stream, pos) == records_of(pieces, base, pos, d.write_pos)
                + patch::trace(after, rest, pos + stream_of(pieces).len())
        }),
    decreases pieces.len(),
{
    let stream = stream_of(pieces) + rest;
    if pieces.len() == 0 {
        assert(stream =~= rest);
        patch::lemma_prepend_nothing(patch::decode(d, rest, base));
        assert(Seq::<DecodedOp>::empty() + patch::trace(d, rest, pos) =~= patch::trace(
            d,
            rest,
            pos,
        ));
    } else {
        let first = pieces[0];
        let others = pieces.drop_first();
        let later = stream_of(others) + rest;
        let next = DecoderState {
            consumed: d.consumed + first.wire().len(),
            write_pos: d.write_pos + first.bytes(base).len(),
            ..d
        };
        assert forall|k: int| 0 <= k < others.len() implies (#[trigger] others[k]).fits(
            d.base_size,
        ) by {
            assert(others[k] == pieces[k + 1]);
        }
        lemma_piece(d, first, later, base, pos);
        lemma_pieces(next, others, rest, base, pos + first.wire().len());
        assert(stream =~= first.wire() + later);
        let after = DecoderState {
            consumed: d.consumed + stream_of(pieces).len(),
            write_pos: d.write_pos + image_of(pieces, base).len(),
            ..d
        };
        patch::lemma_prepend_twice(
            first.bytes(base),
            image_of(others, base),
            patch::decode(after, rest, base),
        );
        let tail = patch::trace(after, rest, pos + stream_of(pieces).len());
        assert(patch::trace(d, stream, pos) =~= records_of(pieces, base, pos, d.write_pos) + tail);
    }
}

/// Every stream of opcodes that fit, with END behind them, yields the bytes of its pieces, one
/// after the other; the opcodes are recorded with the places where they stand and write to.
pub proof fn law_stream_yields_its_pieces(pieces: Seq<Piece>, base: Seq<u8>, target_size: u32)
    requires
        base.len() <= 0xFFFF_FFFF,
        all_fit(pieces, base.len()),
        stream_of(pieces).len() + 1 <= 0xFFFF_FFFF,
        image_of(pieces, base).len() <= target_size,
    ensures
        ({
            let patch = stream_of(pieces) + seq![3u8];
            &&& patch::apply(patch, base, target_size) == Ok::<Seq<u8>, DecodeError>(
                image_of(pieces, base),
            )
            &&& patch::trace(
                DecoderState::fresh(patch.len() as u32, base.len() as u32, target_size),
                patch,
                0,
            ) == records_of(pieces, base, 0, 0) + seq![DecodedOp::End]
        }),
{
    let ending = seq![3u8];
    let patch = stream_of(pieces) + ending;
    let d = DecoderState::fresh(patch.len() as u32, base.len() as u32, target_size);
    lemma_pieces(d, pieces, ending, base, 0);
    let after = DecoderState {
        consumed: stream_of(pieces).len(),
        write_pos: image_of(pieces, base).len(),
        ..d
    };
    patch::lemma_step(after, ending, base, stream_of(pieces).len());
    assert(image_of(pieces, base) + Seq::<u8>::empty() =~= image_of(pieces, base));
}

/// A stream stops at the first opcode that cannot be taken, with the error of that opcode:
/// whatever is right before it does not change what is wrong with it.
pub proof fn law_first_wrong_opcode_decides(
    pieces: Seq<Piece>,
    rest: Seq<u8>,
    base: Seq<u8>,
    target_size: u32,
    e: DecodeError,
)
    requires
        base.len() <= 0xFFFF_FFFF,
        all_fit(pieces, base.len()),
        rest.len() > 0,
        (stream_of(pieces) + rest).len() <= 0xFFFF_FFFF,
        image_of(pieces, base).len() <= target_size,
        between(
            (stream_of(pieces) + rest).len(),
            stream_of(pieces).len(),
            base.len(),
            target_size as nat,
            image_of(pieces, base).len(),
        ).next(rest).1 matches Err(f) && f == e,
    ensures
        patch::apply(stream_of(pieces) + rest, base, target_size) == Err::<Seq<u8>, DecodeError>(e),
        patch::trace(
            DecoderState::fresh(
                (stream_of(pieces) + rest).len() as u32,
                base.len() as u32,
                target_size,
            ),
            stream_of(pieces) + rest,
            0,
        ) == records_of(pieces, base, 0, 0),
{
    let patch = stream_of(pieces) + rest;
    let d = DecoderState::fresh(patch.len() as u32, base.len() as u32, target_size);
    lemma_pieces(d, pieces, rest, base, 0);
    let after = DecoderState {
        consumed: stream_of(pieces).len(),
        write_pos: image_of(pieces, base).len(),
        ..d
    };
    assert(after == between(
        patch.len(),
        stream_of(pieces).len(),
        base.len(),
        target_size as nat,
        image_of(pieces, base).len(),
    ));
    patch::lemma_step(after, rest, base, stream_of(pieces).len());
    assert(records_of(pieces, base, 0, 0) + Seq::<DecodedOp>::empty() =~= records_of(
        pieces,
        base,
        0,
        0,
    ));
}

/// What a stream that is decoded without an error consists of.
proof fn lemma_only_pieces(d: DecoderState, stream: Seq<u8>, base: Seq<u8>) -> (pieces: Seq<Piece>)
    requires
        d.wf(),
        !d.done,
        d.pending_add is None,
        d.base_size == base.len(),
        d.total_size == d.consumed + stream.len(),
        patch::decode(d, stream, base) is Ok,
    ensures
        all_fit(pieces, base.len()),
        stream == stream_of(pieces) + seq![3u8],
        patch::decode(d, stream, base) == Ok::<Seq<u8>, DecodeError>(image_of(pieces, base)),
        d.write_pos + image_of(pieces, base).len() <= d.target_size,
    decreases stream.len(),
{
    patch::lemma_step(d, stream, base, 0);
    patch::lemma_output_fits(d, stream, base);
    let none = Seq::<Piece>::empty();
    if stream[0] == 1 {
        let (src_offset, len) = (le::u32_at(stream, 1), le::u32_at(stream, 5));
        let first = Piece::Copy { src_offset, len };
        let others = lemma_only_pieces(d.next(stream).0, stream.skip(9), base);
        let pieces = seq![first] + others;
        le::lemma_u32_read_write(stream, 1);
        le::lemma_u32_read_write(stream, 5);
        assert(stream =~= first.wire() + stream.skip(9));
        assert(pieces.drop_first() =~= others);
        assert(stream =~= stream_of(pieces) + seq![3u8]);
        assert forall|k: int| 0 <= k < pieces.len() implies (#[trigger] pieces[k]).fits(
            base.len(),
        ) by {
            if k > 0 {
                assert(pieces[k] == others[k - 1]);
            }
        }
        pieces
    } else if stream[0] == 2 {
        let len = le::u32_at(stream, 1);
        let first = Piece::Add(stream.subrange(5, 5 + len));
        let others = lemma_only_pieces(
            d.next(stream).0.advance(len).0,
            stream.skip(5 + len),
            base,
        );
        let pieces = seq![first] + others;
        le::lemma_u32_read_write(stream, 1);
        assert(stream =~= first.wire() + stream.skip(5 + len));
        assert(pieces.drop_first() =~= others);
        assert(stream =~= stream_of(pieces) + seq![3u8]);
        assert forall|k: int| 0 <= k < pieces.len() implies (#[trigger] pieces[k]).fits(
            base.len(),
        ) by {
            if k > 0 {
                assert(pieces[k] == others[k - 1]);
            }
        }
        pieces
    } else {
        assert(stream =~= stream_of(none) + seq![3u8]);
        none
    }
}

/// Nothing else is accepted: what is decoded without an error is a stream of opcodes that fit,
/// with END behind them and nothing behind that, and yields no more than the target size.
pub proof fn law_only_such_streams_are_accepted(
    patch: Seq<u8>,
    base: Seq<u8>,
    target_size: u32,
    image: Seq<u8>,
)
    requires
        base.len() <= 0xFFFF_FFFF,
        patch.len() <= 0xFFFF_FFFF,
        patch::apply(patch, base, target_size) == Ok::<Seq<u8>, DecodeError>(image),
    ensures
        exists|pieces: Seq<Piece>|
            all_fit(pieces, base.len()) && patch == #[trigger] stream_of(pieces) + seq![3u8]
                && image == image_of(pieces, base) && image.len() <= target_size,
{
    let d = DecoderState::fresh(patch.len() as u32, base.len() as u32, target_size);
    let pieces = lemma_only_pieces(d, patch, base);
    assert(patch == stream_of(pieces) + seq![3u8]);
}

/// The number of bytes that a run of records takes up in the stream is that of the opcodes they
/// were recorded of.
pub proof fn law_records_measure_the_stream(pieces: Seq<Piece>, base: Seq<u8>, base_len: nat)
    requires
        all_fit(pieces, base_len),
    ensures
        patch::wire_len(records_of(pieces, base, 0, 0)) == stream_of(pieces).len(),
        patch::wire_len(records_of(pieces, base, 0, 0) + seq![DecodedOp::End]) == stream_of(
            pieces,
        ).len() + 1,
{
    lemma_records_len(pieces, base, base_len, 0, 0);
    let records = records_of(pieces, base, 0, 0);
    let all = records + seq![DecodedOp::End];
    assert(all.drop_last() =~= records);
}

proof fn lemma_wire_len_front(first: DecodedOp, rest: Seq<DecodedOp>)
    ensures
        patch::wire_len(seq![first] + rest) == patch::wire_len(seq![first]) + patch::wire_len(rest),
    decreases rest.len(),
{
    let all = seq![first] + rest;
    if rest.len() == 0 {
        assert(all =~= seq![first]);
    } else {
        lemma_wire_len_front(first, rest.drop_last());
        assert(all.drop_last() =~= seq![first] + rest.drop_last());
    }
}

proof fn lemma_records_len(
    pieces: Seq<Piece>,
    base: Seq<u8>,
    base_len: nat,
    pos: nat,
    written: nat,
)
    requires
        all_fit(pieces, base_len),
    ensures
        patch::wire_len(records_of(pieces, base, pos, written)) == stream_of(pieces).len(),
    decreases pieces.len(),
{
    if pieces.len() > 0 {
        let first = pieces[0];
        let others = pieces.drop_first();
        assert forall|k: int| 0 <= k < others.len() implies (#[trigger] others[k]).fits(
            base_len,
        ) by {
            assert(others[k] == pieces[k + 1]);
        }
        let later = records_of(
            others,
            base,
            pos + first.wire().len(),
            written + first.bytes(base).len(),
        );
        lemma_records_len(
            others,
            base,
            base_len,
            pos + first.wire().len(),
            written + first.bytes(base).len(),
        );
        let record = first.record(pos, written);
        lemma_wire_len_front(record, later);
        reveal_with_fuel(patch::wire_len, 2);
        assert(seq![record].drop_last() =~= Seq::<DecodedOp>::empty());
    }
}

} // verus!

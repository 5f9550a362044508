//! The device's reconstruction, run in memory.
//!
//! Goes through the same steps as a device: the patch comes in fragments of at most 64 bytes,
//! COPY reads the base, ADD takes literal bytes from the patch, and the running CRC-32b is
//! checked at the end.

use vstd::prelude::*;

use crate::chunk_stream;
use crate::chunk_stream::{ChunkStream, Demand};
use crate::crc;
use crate::patch;
use crate::protocol::PACKET_BUFFER_SIZE;

verus! {

/// Why a simulated device does not end up with the image.
#[derive(Debug, Clone, Copy, PartialEq, Eq, Structural)]
pub enum SimulationError {
    /// The patch cannot be decoded.
    Undecodable,
    /// The image does not have the declared size.
    SizeMismatch { size: usize },
    /// The image does not have the declared CRC.
    CrcMismatch { crc: u32 },
}

/// What a device makes of a patch and a base, given the declared size and CRC of the image.
pub open spec fn simulated(patch: Seq<u8>, base: Seq<u8>, target_size: u32, expected_crc: u32) -> Result<
    Seq<u8>,
    SimulationError,
> {
    match patch::apply(patch, base, target_size) {
        Err(_) => Err(SimulationError::Undecodable),
        Ok(image) => if image.len() != target_size {
            Err(SimulationError::SizeMismatch { size: image.len() as usize })
        } else if crc::crc32_of(image) != expected_crc {
            Err(SimulationError::CrcMismatch { crc: crc::crc32_of(image) })
        } else {
            Ok(image)
        },
    }
}

/// Reconstructs an image exactly as a device does, fragment by fragment and chunk by chunk.
pub fn simulate_device(patch: &[u8], base: &[u8], target_size: u32, expected_crc: u32) -> (r: Result<
    Vec<u8>,
    SimulationError,
>)
    requires
        patch@.len() <= u32::MAX,
        base@.len() <= u32::MAX,
    ensures
        match (r, simulated(patch@, base@, target_size, expected_crc)) {
            (Ok(image), Ok(expected)) => image@ == expected,
            (Err(e), Err(f)) => e == f,
            _ => false,
        },
{
    let mut stream = ChunkStream::new(patch.len() as u32, base.len() as u32, target_size);
    let mut out: Vec<u8> = Vec::new();
    let mut arrived: usize = 0;
    proof {
        patch::lemma_low_word(patch@.len());
        patch::lemma_low_word(base@.len());
        assert(patch@.take(0) =~= Seq::<u8>::empty());
    }
    loop
        invariant
            patch@.len() <= u32::MAX,
            base@.len() <= u32::MAX,
            stream@.wf(),
            stream@.target_size == target_size,
            stream@.may_come_from(patch@, base@),
            stream@.delivered == patch@.take(arrived as int),
            arrived <= patch@.len(),
            stream@.produced == out@,
        decreases stream@.reader.remaining, target_size - out@.len(),
    {
        let ghost before = stream@;
        match stream.demand(PACKET_BUFFER_SIZE) {
            Demand::Fragment(n) => {
                let end: usize = arrived + n;
                stream.accept_fragment(vstd::slice::slice_subrange(patch, arrived, end));
                assert(patch@.take(arrived as int) + patch@.subrange(arrived as int, end as int)
                    =~= patch@.take(end as int));
                arrived = end;
            },
            Demand::Base { src, len } => {
                let start: usize = src as usize;
                let ghost reads = stream@.reads;
                let data: &[u8] = vstd::slice::slice_subrange(base, start, start + len);
                stream.accept_base(data);
                out.extend_from_slice(data);
                proof {
                    assert(out@ =~= before.produced + data@);
                    assert forall|k: int| 0 <= k < stream@.reads.len() implies {
                        let (src, data) = #[trigger] stream@.reads[k];
                        src + data.len() <= base@.len() && data == base@.subrange(
                            src as int,
                            src + data.len(),
                        )
                    } by {
                        if k < reads.len() {
                            assert(stream@.reads[k] == reads[k]);
                        }
                    }
                    assert(chunk_stream::were_read_from(stream@.reads, base@));
                }
            },
            Demand::Chunk(chunk) => {
                out.extend_from_slice(&chunk);
                assert(out@ =~= before.produced + chunk@);
            },
            Demand::End => {
                assert(stream@.may_come_from(patch@, base@));
                if out.len() != target_size as usize {
                    return Err(SimulationError::SizeMismatch { size: out.len() });
                }
                let crc: u32 = stream.crc32();
                if crc != expected_crc {
                    return Err(SimulationError::CrcMismatch { crc });
                }
                return Ok(out);
            },
            Demand::Failed => {
                assert(stream@.may_come_from(patch@, base@));
                return Err(SimulationError::Undecodable);
            },
        }
    }
}

/// A simulated device ends up with an image exactly when the patch yields it from the base and it
/// has the declared size and the declared CRC; otherwise it says which of these fails, in this
/// order, and by how much.
pub proof fn law_simulation(patch: Seq<u8>, base: Seq<u8>, target_size: u32, expected_crc: u32)
    ensures
        ({
            let yielded = patch::apply(patch, base, target_size);
            match simulated(patch, base, target_size, expected_crc) {
                Ok(image) => yielded == Ok::<Seq<u8>, crate::error::DecodeError>(image)
                    && image.len() == target_size && crc::crc32_of(image) == expected_crc,
                Err(SimulationError::Undecodable) => yielded is Err,
                Err(SimulationError::SizeMismatch { size }) => yielded matches Ok(image)
                    && image.len() != target_size && size == image.len() as usize,
                Err(SimulationError::CrcMismatch { crc }) => yielded matches Ok(image)
                    && image.len() == target_size && crc == crc::crc32_of(image) && crc
                    != expected_crc,
            }
        }),
{
}

} // verus!

//! Component-level delta updates.
//!
//! A component image is updated by sending only the difference to the version that the device
//! already holds.  The library covers the whole way: the COPY/ADD/END codec, the builder of
//! delta images, the host's side of the update protocol, and the device's side, which rebuilds
//! the new image in flash.
//!
//! - Codec: [`format`](crate::format), [`crc`], [`le`], [`bytes`], [`decoder`], [`patch`], [`encoder`],
//!   [`opcode_stream`], [`greedy`], [`roundtrip`], [`measure`], [`report`], [`text`].
//! - Building delta images: [`ranges`], [`delta_gen`].
//! - Protocol and host: [`protocol`], [`flash_host`].
//! - Device: [`base_check`], [`chunk_stream`], [`reconstruct`], [`installation`], [`update`],
//!   [`message`], [`simulate`].
//! - Hardware around an update: [`gpio`], [`markers`], [`bus_recovery`], [`i2c`], [`thermo`].
//!
//! Nothing here performs I/O.  What alternates I/O and decisions is a state machine: it says
//! what is to be done, and is told what came of it.

pub mod base_check;
pub mod bus_recovery;
pub mod bytes;
pub mod chunk_stream;
pub mod crc;
pub mod decoder;
pub mod delta_gen;
pub mod encoder;
pub mod error;
pub mod flash_host;
pub mod format;
pub mod gpio;
pub mod greedy;
pub mod i2c;
pub mod installation;
pub mod le;
pub mod markers;
pub mod measure;
pub mod message;
pub mod opcode_stream;
pub mod patch;
pub mod protocol;
pub mod ranges;
pub mod reconstruct;
pub mod report;
pub mod roundtrip;
pub mod simulate;
pub mod text;
pub mod thermo;
pub mod update;

pub use crate::crc::{crc32b, Crc32State};
pub use crate::decoder::{decode_to_report, Decoder, DecoderAction};
pub use crate::encoder::{encode, encode_faithful, encode_to_report};
pub use crate::error::DecodeError;
pub use crate::format::{
    DeltaHeader, ALGO_COPY_ADD_V1, DELTA_FORMAT_V1, DELTA_HEADER_SIZE, DELTA_MAGIC,
    MAX_OPCODE_HEADER, OP_ADD, OP_COPY, OP_END,
};

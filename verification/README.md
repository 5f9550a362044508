# delta_patcher

Component-level delta updates, verified with Verus.

A component image on a device is updated by sending only the difference to the version that
the device already holds. The device stores a component relocated, so its bytes differ from
the pristine build at every relocation site; a patch never copies such a byte.

## Layout

- `src/` is the verified library. It performs no I/O: where I/O and decisions alternate, it
  holds a state machine that says what is to be done and is told what came of it.
  - Codec: `format`, `crc`, `le`, `bytes`, `error`, `decoder`, `patch` (what a patch means),
    `encoder`, `roundtrip` (what decoding gives back of what was encoded), `measure`, `report`
    and `text` (what encoder and decoder report of their work).
  - Building delta images: `ranges`, `delta_gen`.
  - Protocol and host: `protocol`, `flash_host`.
  - Device: `base_check`, `chunk_stream`, `reconstruct`, `installation` (what holds of a whole
    reconstruction, from the first call to the last), `update`, `message`, and `simulate`, which
    runs a device in memory.
  - Hardware around an update: `gpio`, `markers`, `bus_recovery`, `i2c`, `thermo`.
- `app/` performs the I/O. What belongs to a board or to the image format comes in through the
  traits of `app/platform.rs`.
- `tests/` runs the library on concrete values.

## What is proved

Functions whose names start with `law_` state what holds of the library as a whole. The
central ones:

- `roundtrip::law_roundtrip`: decoding what was encoded gives back the new image.
- `roundtrip::law_faithful`: so it does from every base that agrees with the old image outside
  the forbidden ranges.
- `roundtrip::law_copies_avoid_forbidden`: no COPY reads a forbidden byte.
- `report::law_encoder_report_lists_the_patch`: the encoder's report has the hash table, and one
  numbered line for each opcode of the patch, in order.
- `delta_gen::law_accepted_patch_is_faithful`: a patch that passes the builder's self-check
  depends on no forbidden byte.
- `base_check::law_verification_accepts_the_right_base`: the device accepts the right base,
  whatever relocation made of it.
- `installation::law_every_byte_is_handed_out_once`: every byte of the image is handed out once,
  at consecutive offsets, into one block.
- `installation::law_run_installs_what_the_patch_makes`: what is installed is what the patch
  makes of the base, with the declared size and CRC.
- `update::law_device_installs_the_new_image`: all of this from end to end, for every run.
- `update::law_device_does_not_refuse_the_update`: nor does a right update fail, as long as
  nothing fails outside.

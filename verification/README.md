# scrcpy

The protocol layer of a scrcpy client, verified with Verus: media packet
framing, control message encoding and H.264 SPS parsing.

## Layout

- `src/` — the verified library.
  - `h264.rs` — splitting an Annex B stream into NAL units, removing
    emulation-prevention bytes, finding the first SPS;
    `h264/bits.rs` reads bits and Exp-Golomb codes, `h264/sps.rs` parses the
    display resolution out of an SPS.
  - `protocol/video.rs`, `protocol/audio.rs` — media packet headers and
    packets.
  - `protocol/control.rs` — control messages and their wire encoding.
  - `wire.rs` — big-endian encoding, done by the `byteorder` crate.
  - `text.rs` — decimal numbers in error messages.
  - `error.rs` — error values.
- `app/` — the unverified side: reading packets from sockets, the
  `ControlSender` over a TCP stream, the error type with `Display`, and the
  floating-point pressure and scroll inputs.
- `tests/` — tests of the library.

Each public function states its result in its `ensures` over a
mathematical model of the wire format; the proof functions (`lemma_*`)
state properties that span several functions, such as the layout of every
control message or that removing emulation-prevention bytes undoes their
insertion.

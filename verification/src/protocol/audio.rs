//! Audio packets of the scrcpy media stream.
//!
//! A packet is a 12-byte header, `pts_and_flags` (u64, big-endian) then
//! `packet_size` (u32, big-endian), followed by exactly `packet_size`
//! payload bytes.
use crate::error::{Result, ScrcpyError};
use crate::protocol::video::{header_fields, lemma_header_fields_bytes, PACKET_HEADER_SIZE};
use crate::text::{decimal, decimal_string};
use crate::wire::{be32_at, be64_at, read_be_u32, read_be_u64};
use crate::MAX_PACKET_SIZE;
use vstd::prelude::*;
use vstd::slice::{slice_subrange, slice_to_vec};

verus! {

/// A decoded audio packet received from the scrcpy server.
///
/// `codec_id` is populated by the connection layer after reading the codec
/// metadata packet that precedes the audio stream.
#[derive(Debug, Clone)]
pub struct AudioPacket {
    /// Presentation timestamp extracted from the low 63 bits of the wire header.
    pub pts: i64,
    /// Codec identifier for this packet.
    ///
    /// Always `0` when constructed via [`AudioPacket::from_bytes`] because the
    /// scrcpy protocol sends codec metadata in a separate preceding packet.
    /// The connection layer is responsible for reading that metadata packet and
    /// filling in this field afterwards.
    pub codec_id: u32,
    /// Packet flags from the wire header: its top bit, 0 or 1.
    pub flags: u64,
    /// Raw compressed audio payload.
    pub payload: Vec<u8>,
}

/// Message of the error for data shorter than a header.
pub open spec fn short_audio_message(len: nat) -> Seq<char> {
    "Audio packet too short: expected at least 12 bytes, got "@ + decimal(len)
}

/// Message of the error for a packet larger than [`MAX_PACKET_SIZE`].
pub open spec fn oversized_audio_message(size: nat) -> Seq<char> {
    "Audio packet size "@ + decimal(size) + " exceeds maximum allowed "@ + decimal(
        MAX_PACKET_SIZE as nat,
    ) + " (10MB)"@
}

/// Message of the error for data whose length disagrees with its header.
pub open spec fn mismatched_audio_message(expected: nat, got: nat) -> Seq<char> {
    "Audio packet size mismatch: expected "@ + decimal(expected) + ", got "@ + decimal(got)
}

/// What decoding `data` as one audio packet yields: the packet's
/// `(pts, flags, payload)`, or the message of the protocol error.
pub open spec fn audio_decoding(data: Seq<u8>) -> core::result::Result<
    (int, int, Seq<u8>),
    Seq<char>,
> {
    if data.len() < PACKET_HEADER_SIZE {
        Err(short_audio_message(data.len()))
    } else {
        let (raw, size) = header_fields(data);
        if size > MAX_PACKET_SIZE {
            Err(oversized_audio_message(size))
        } else if data.len() != PACKET_HEADER_SIZE + size {
            Err(mismatched_audio_message((PACKET_HEADER_SIZE + size) as nat, data.len()))
        } else {
            Ok(
                (
                    (raw % 0x8000_0000_0000_0000) as int,
                    (raw / 0x8000_0000_0000_0000) as int,
                    data.skip(PACKET_HEADER_SIZE as int),
                ),
            )
        }
    }
}

impl AudioPacket {
    /// Decodes one whole audio packet, header and payload. The data must be
    /// exactly as long as the header announces, and the payload no larger
    /// than [`MAX_PACKET_SIZE`].
    pub fn from_bytes(data: &[u8]) -> (r: Result<Self>)
        ensures
            match audio_decoding(data@) {
                Ok((pts, flags, payload)) => r matches Ok(p) && p.pts == pts && p.flags == flags
                    && p.codec_id == 0 && p.payload@ == payload,
                Err(message) => r matches Err(ScrcpyError::ProtocolError(m)) && m@ == message,
            },
    {
        if data.len() < PACKET_HEADER_SIZE {
            let mut message = String::from_str(
                "Audio packet too short: expected at least 12 bytes, got ",
            );
            message.append(decimal_string(data.len() as u64).as_str());
            return Err(ScrcpyError::ProtocolError(message));
        }
        let pts_and_flags = read_be_u64(data);
        let tail = slice_subrange(data, 8, 12);
        assert(tail@.take(4) == data@.subrange(8, 12));
        let packet_size = read_be_u32(tail);
        if packet_size as usize > MAX_PACKET_SIZE {
            let mut message = String::from_str("Audio packet size ");
            message.append(decimal_string(packet_size as u64).as_str());
            message.append(" exceeds maximum allowed ");
            message.append(decimal_string(MAX_PACKET_SIZE as u64).as_str());
            message.append(" (10MB)");
            return Err(ScrcpyError::ProtocolError(message));
        }
        let pts = (pts_and_flags & 0x7FFF_FFFF_FFFF_FFFF) as i64;
        let flags = pts_and_flags >> 63;
        assert(pts_and_flags & 0x7FFF_FFFF_FFFF_FFFFu64 == pts_and_flags
            % 0x8000_0000_0000_0000u64) by (bit_vector);
        assert(pts_and_flags >> 63u64 == pts_and_flags / 0x8000_0000_0000_0000u64) by (bit_vector);
        let payload_start = PACKET_HEADER_SIZE;
        let expected_total = payload_start + packet_size as usize;
        if data.len() != expected_total {
            let mut message = String::from_str("Audio packet size mismatch: expected ");
            message.append(decimal_string(expected_total as u64).as_str());
            message.append(", got ");
            message.append(decimal_string(data.len() as u64).as_str());
            return Err(ScrcpyError::ProtocolError(message));
        }
        let payload = slice_to_vec(slice_subrange(data, payload_start, data.len()));
        Ok(AudioPacket { pts, codec_id: 0, flags, payload })
    }

    /// Size of the packet on the wire: the header plus the payload.
    pub fn size(&self) -> (r: usize)
        requires
            self.payload@.len() + PACKET_HEADER_SIZE <= usize::MAX,
        ensures
            r == PACKET_HEADER_SIZE + self.payload@.len(),
    {
        PACKET_HEADER_SIZE + self.payload.len()
    }
}

/// Decoding succeeds exactly when the data holds a header whose size,
/// bytes 8 to 11 read big-endian, is at most [`MAX_PACKET_SIZE`] and is
/// the number of bytes after the header. The flag is then the top bit of
/// the first byte, the timestamp the other 63 bits of bytes 0 to 7 read
/// big-endian, and the payload the bytes after the header.
pub proof fn lemma_audio_decoding_bytes(data: Seq<u8>)
    ensures
        (audio_decoding(data) is Ok) <==> (data.len() >= 12 && be32_at(data, 8) <= MAX_PACKET_SIZE
            && data.len() == 12 + be32_at(data, 8)),
        audio_decoding(data) matches Ok((pts, flags, payload)) ==> flags == data[0] / 128 && pts
            == be64_at(data, 0) - (data[0] / 128) * 0x8000_0000_0000_0000 && payload == data.skip(
            12,
        ),
{
    if data.len() >= 12 {
        lemma_header_fields_bytes(data);
        let raw = header_fields(data).0;
        assert(raw % 0x8000_0000_0000_0000 == raw - (raw / 0x8000_0000_0000_0000)
            * 0x8000_0000_0000_0000) by (nonlinear_arith);
    }
}

/// A packet decoded from `data` has the wire size of `data`, its flags are a
/// single bit and its timestamp is non-negative.
pub proof fn lemma_decoded_audio_size(data: Seq<u8>)
    requires
        audio_decoding(data) is Ok,
    ensures
        audio_decoding(data) matches Ok((pts, flags, payload)) && PACKET_HEADER_SIZE
            + payload.len() == data.len() && 0 <= flags <= 1 && 0 <= pts,
{
    crate::wire::lemma_be_bound(data.take(8));
}

} // verus!

//! Video packets of the scrcpy media stream.
//!
//! Each packet is a 12-byte header, `pts_and_flags` (u64, big-endian) then
//! `packet_size` (u32, big-endian), followed by `packet_size` payload bytes.
use crate::error::{Result, ScrcpyError};
use crate::text::{decimal, decimal_string};
use crate::wire::{be32_at, be64_at, be_value, lemma_be_value_small, read_be_u32, read_be_u64};
use crate::MAX_PACKET_SIZE;
use vstd::prelude::*;

verus! {

/// Bit 63 of `pts_and_flags`: the packet carries codec configuration.
pub const PACKET_FLAG_CONFIG: u64 = 0x8000_0000_0000_0000;

/// Bit 62 of `pts_and_flags`: the packet is a key frame.
pub const PACKET_FLAG_KEY_FRAME: u64 = 0x4000_0000_0000_0000;

/// Length of a media packet header.
pub const PACKET_HEADER_SIZE: usize = 12;

/// A decoded video packet received from the scrcpy server.
///
/// Config packets (`is_config = true`) carry codec-specific parameter data
/// (e.g. H.264 SPS/PPS) and have no display timestamp. Key-frame packets
/// (`is_keyframe = true`) can be decoded without prior frames.
#[derive(Debug, Clone)]
pub struct VideoPacket {
    /// Presentation timestamp in microseconds. Meaningless for config packets.
    pub pts_us: u64,
    /// `true` if this packet carries codec configuration data (SPS/PPS for H.264).
    pub is_config: bool,
    /// `true` if this packet is an independently decodable key frame.
    pub is_keyframe: bool,
    /// Raw compressed video payload.
    pub data: Vec<u8>,
}

/// Message of the error for a packet larger than [`MAX_PACKET_SIZE`].
pub open spec fn oversized_video_message(size: nat) -> Seq<char> {
    "Video packet size "@ + decimal(size) + " exceeds maximum allowed "@ + decimal(
        MAX_PACKET_SIZE as nat,
    ) + " (10MB)"@
}

/// The header fields `(pts_and_flags, packet_size)` of a 12-byte header.
pub open spec fn header_fields(header: Seq<u8>) -> (nat, nat) {
    (be_value(header.take(8)), be_value(header.subrange(8, 12)))
}

/// The header word is the first eight bytes read as a big-endian number,
/// its top bit (the config flag) the top bit of the first byte, and the
/// packet size the next four bytes read as a big-endian number.
pub proof fn lemma_header_fields_bytes(header: Seq<u8>)
    requires
        header.len() >= PACKET_HEADER_SIZE,
    ensures
        header_fields(header).0 == be64_at(header, 0),
        header_fields(header).1 == be32_at(header, 8),
        header_fields(header).0 / 0x8000_0000_0000_0000 == header[0] / 128,
        (header_fields(header).0 / 0x4000_0000_0000_0000) % 2 == (header[0] / 64) % 2,
        header_fields(header).0 % 0x100_0000_0000_0000 == be64_at(header, 0) - header[0]
            * 0x100_0000_0000_0000,
{
    let w = header.take(8);
    let z = header.subrange(8, 12);
    lemma_be_value_small(w);
    lemma_be_value_small(z);
    let b0 = header[0] as int;
    let rest = be64_at(header, 0) - b0 * 0x100_0000_0000_0000;
    assert(0 <= rest < 0x100_0000_0000_0000);
    assert(be64_at(header, 0) == b0 * 0x100_0000_0000_0000 + rest);
    assert((b0 * 0x100_0000_0000_0000 + rest) / 0x8000_0000_0000_0000 == b0 / 128
        && ((b0 * 0x100_0000_0000_0000 + rest) / 0x4000_0000_0000_0000) % 2 == (b0 / 64) % 2
        && (b0 * 0x100_0000_0000_0000 + rest) % 0x100_0000_0000_0000 == rest) by (nonlinear_arith)
        requires
            0 <= b0 < 256,
            0 <= rest < 0x100_0000_0000_0000,
    ;
}

impl VideoPacket {
    /// Decodes a packet header into `(pts_and_flags, packet_size)`, refusing
    /// a packet larger than [`MAX_PACKET_SIZE`] before its payload is read.
    pub fn parse_header(header: &[u8]) -> (r: Result<(u64, usize)>)
        requires
            header@.len() >= PACKET_HEADER_SIZE,
        ensures
            ({
                let (raw, size) = header_fields(header@);
                if size <= MAX_PACKET_SIZE {
                    r matches Ok((pts_and_flags, packet_size)) && pts_and_flags == raw
                        && packet_size == size && pts_and_flags == be64_at(header@, 0)
                        && packet_size == be32_at(header@, 8)
                } else {
                    r matches Err(ScrcpyError::ProtocolError(m)) && m@ == oversized_video_message(
                        size,
                    )
                }
            }),
    {
        proof {
            lemma_header_fields_bytes(header@);
        }
        let pts_and_flags = read_be_u64(header);
        let tail = vstd::slice::slice_subrange(header, 8, 12);
        assert(tail@.take(4) == header@.subrange(8, 12));
        let packet_size = read_be_u32(tail) as usize;
        if packet_size > MAX_PACKET_SIZE {
            let mut message = String::from_str("Video packet size ");
            message.append(decimal_string(packet_size as u64).as_str());
            message.append(" exceeds maximum allowed ");
            message.append(decimal_string(MAX_PACKET_SIZE as u64).as_str());
            message.append(" (10MB)");
            return Err(ScrcpyError::ProtocolError(message));
        }
        Ok((pts_and_flags, packet_size))
    }

    /// The packet whose header word is `pts_and_flags` and whose payload is
    /// `data`: bit 63 marks a config packet, bit 62 a key frame, and the
    /// low 62 bits are the timestamp.
    pub fn from_parts(pts_and_flags: u64, data: Vec<u8>) -> (r: VideoPacket)
        ensures
            r.pts_us == pts_and_flags % 0x4000_0000_0000_0000,
            r.is_config == (pts_and_flags / 0x8000_0000_0000_0000 == 1),
            r.is_keyframe == ((pts_and_flags / 0x4000_0000_0000_0000) % 2 == 1),
            r.data == data,
    {
        let is_config = (pts_and_flags & PACKET_FLAG_CONFIG) != 0;
        let is_keyframe = (pts_and_flags & PACKET_FLAG_KEY_FRAME) != 0;
        let pts_mask = !(PACKET_FLAG_CONFIG | PACKET_FLAG_KEY_FRAME);
        assert(((pts_and_flags & 0x8000_0000_0000_0000u64) != 0) == (pts_and_flags
            / 0x8000_0000_0000_0000u64 == 1)) by (bit_vector);
        assert(((pts_and_flags & 0x4000_0000_0000_0000u64) != 0) == ((pts_and_flags
            / 0x4000_0000_0000_0000u64) % 2 == 1)) by (bit_vector);
        assert(pts_mask == 0x3fff_ffff_ffff_ffffu64) by (bit_vector)
            requires
                pts_mask == !(0x8000_0000_0000_0000u64 | 0x4000_0000_0000_0000u64),
        ;
        assert(pts_and_flags & 0x3fff_ffff_ffff_ffffu64 == pts_and_flags
            % 0x4000_0000_0000_0000u64) by (bit_vector);
        VideoPacket { pts_us: pts_and_flags & pts_mask, is_config, is_keyframe, data }
    }

    /// `true` when the payload is empty.
    pub fn is_empty(&self) -> (r: bool)
        ensures
            r == (self.data@.len() == 0),
    {
        self.data.len() == 0
    }

    /// Size of the packet on the wire: the header plus the payload.
    pub fn total_size(&self) -> (r: usize)
        requires
            self.data@.len() + PACKET_HEADER_SIZE <= usize::MAX,
        ensures
            r == PACKET_HEADER_SIZE + self.data@.len(),
    {
        PACKET_HEADER_SIZE + self.data.len()
    }
}

/// A packet read off the stream, its header followed by the payload that
/// header announces, is empty exactly when the header announces no payload,
/// and its total size is the number of bytes it took on the stream.
pub proof fn lemma_read_packet_sizes(header: Seq<u8>, packet: VideoPacket)
    requires
        header.len() == PACKET_HEADER_SIZE,
        header_fields(header).1 <= MAX_PACKET_SIZE,
        packet.data@.len() == header_fields(header).1,
    ensures
        (packet.data@.len() == 0) <==> header_fields(header).1 == 0,
        PACKET_HEADER_SIZE + packet.data@.len() == (header + packet.data@).len(),
{
}

/// The timestamp and the two flags of a video packet together give back the
/// header word it was decoded from.
pub proof fn lemma_video_header_word(pts_and_flags: u64)
    ensures
        pts_and_flags == pts_and_flags % 0x4000_0000_0000_0000 + (if pts_and_flags
            / 0x8000_0000_0000_0000 == 1 {
            0x8000_0000_0000_0000int
        } else {
            0
        }) + (if (pts_and_flags / 0x4000_0000_0000_0000) % 2 == 1 {
            0x4000_0000_0000_0000int
        } else {
            0
        }),
{
}

} // verus!

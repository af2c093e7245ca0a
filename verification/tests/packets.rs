use scrcpy::protocol::audio::AudioPacket;
use scrcpy::protocol::video::{
    VideoPacket, PACKET_FLAG_CONFIG, PACKET_FLAG_KEY_FRAME, PACKET_HEADER_SIZE,
};
use scrcpy::{ScrcpyError, MAX_PACKET_SIZE};

fn header(pts_and_flags: u64, size: u32) -> Vec<u8> {
    let mut h = pts_and_flags.to_be_bytes().to_vec();
    h.extend_from_slice(&size.to_be_bytes());
    h
}

fn protocol_message(err: ScrcpyError) -> String {
    match err {
        ScrcpyError::ProtocolError(m) => m,
        other => panic!("unexpected error {:?}", other),
    }
}

#[test]
fn audio_packet_is_decoded() {
    let mut data = header(0x8000_0000_0000_1234, 3);
    data.extend_from_slice(&[1, 2, 3]);
    let packet = AudioPacket::from_bytes(&data).unwrap();
    assert_eq!(packet.pts, 0x1234);
    assert_eq!(packet.flags, 1);
    assert_eq!(packet.codec_id, 0);
    assert_eq!(packet.payload, vec![1, 2, 3]);
    assert_eq!(packet.size(), data.len());
}

#[test]
fn audio_packet_without_flag_and_payload() {
    let data = header(0x7fff_ffff_ffff_ffff, 0);
    let packet = AudioPacket::from_bytes(&data).unwrap();
    assert_eq!(packet.pts, i64::MAX);
    assert_eq!(packet.flags, 0);
    assert!(packet.payload.is_empty());
    assert_eq!(packet.size(), 12);
}

#[test]
fn audio_packet_too_short() {
    let err = AudioPacket::from_bytes(&[0, 1, 2, 3, 4]).unwrap_err();
    assert_eq!(
        protocol_message(err),
        "Audio packet too short: expected at least 12 bytes, got 5"
    );
    let err = AudioPacket::from_bytes(&[]).unwrap_err();
    assert_eq!(
        protocol_message(err),
        "Audio packet too short: expected at least 12 bytes, got 0"
    );
}

#[test]
fn audio_packet_too_large() {
    let data = header(0, MAX_PACKET_SIZE as u32 + 1);
    let err = AudioPacket::from_bytes(&data).unwrap_err();
    assert_eq!(
        protocol_message(err),
        "Audio packet size 10485761 exceeds maximum allowed 10485760 (10MB)"
    );
}

#[test]
fn audio_packet_length_mismatch() {
    let mut data = header(0, 4);
    data.extend_from_slice(&[9, 9, 9]);
    let err = AudioPacket::from_bytes(&data).unwrap_err();
    assert_eq!(protocol_message(err), "Audio packet size mismatch: expected 16, got 15");
    let mut data = header(0, 1);
    data.extend_from_slice(&[9, 9]);
    let err = AudioPacket::from_bytes(&data).unwrap_err();
    assert_eq!(protocol_message(err), "Audio packet size mismatch: expected 13, got 14");
}

#[test]
fn video_header_is_decoded() {
    let h = header(PACKET_FLAG_KEY_FRAME | 42, 1000);
    assert_eq!(h.len(), PACKET_HEADER_SIZE);
    let (pts_and_flags, size) = VideoPacket::parse_header(&h).unwrap();
    assert_eq!(pts_and_flags, PACKET_FLAG_KEY_FRAME | 42);
    assert_eq!(size, 1000);
}

#[test]
fn video_header_at_the_size_limit() {
    let h = header(0, MAX_PACKET_SIZE as u32);
    assert_eq!(VideoPacket::parse_header(&h).unwrap().1, MAX_PACKET_SIZE);
}

#[test]
fn video_header_too_large() {
    let h = header(0, u32::MAX);
    let err = VideoPacket::parse_header(&h).unwrap_err();
    assert_eq!(
        protocol_message(err),
        "Video packet size 4294967295 exceeds maximum allowed 10485760 (10MB)"
    );
}

#[test]
fn video_flags_are_split_from_the_timestamp() {
    let config = VideoPacket::from_parts(PACKET_FLAG_CONFIG | 7, vec![1]);
    assert!(config.is_config);
    assert!(!config.is_keyframe);
    assert_eq!(config.pts_us, 7);

    let key = VideoPacket::from_parts(PACKET_FLAG_KEY_FRAME | 123_456, vec![1, 2]);
    assert!(!key.is_config);
    assert!(key.is_keyframe);
    assert_eq!(key.pts_us, 123_456);

    let both = VideoPacket::from_parts(u64::MAX, vec![]);
    assert!(both.is_config && both.is_keyframe);
    assert_eq!(both.pts_us, (1u64 << 62) - 1);

    let plain = VideoPacket::from_parts(99, vec![]);
    assert!(!plain.is_config && !plain.is_keyframe);
    assert_eq!(plain.pts_us, 99);
}

#[test]
fn video_packet_sizes() {
    let packet = VideoPacket::from_parts(0, vec![0; 10]);
    assert!(!packet.is_empty());
    assert_eq!(packet.total_size(), 22);
    let empty = VideoPacket::from_parts(0, vec![]);
    assert!(empty.is_empty());
    assert_eq!(empty.total_size(), 12);
}

#[test]
fn video_packet_assembled_from_header_and_announced_payload() {
    for size in [0u32, 1, 300] {
        let h = header(PACKET_FLAG_CONFIG | 5, size);
        let (pts_and_flags, len) = VideoPacket::parse_header(&h).unwrap();
        let packet = VideoPacket::from_parts(pts_and_flags, vec![0xab; len]);
        assert_eq!(packet.is_empty(), size == 0);
        assert_eq!(packet.total_size(), h.len() + size as usize);
    }
}

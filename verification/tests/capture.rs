use bytes::BytesMut;
use ultimate_control::codec::PacketCodec;
use ultimate_control::packet::ser;
use ultimate_control::types::UcPacket;

/// Frames recorded during the startup of a session with the mixer.
const STARTUP_CAPTURE: [u8; 979] = [
    0x55, 0x43, 0x00, 0x01, 0x08, 0x00, 0x55, 0x4d, 0x00, 0x00, 0x65, 0x00, 0x5e, 0xf1, 0x55, 0x43,
    0x00, 0x01, 0xc3, 0x00, 0x4a, 0x4d, 0x6a, 0x00, 0x65, 0x00, 0xb9, 0x00, 0x00, 0x00, 0x7b, 0x22,
    0x69, 0x64, 0x22, 0x3a, 0x20, 0x22, 0x53, 0x75, 0x62, 0x73, 0x63, 0x72, 0x69, 0x62, 0x65, 0x22,
    0x2c, 0x22, 0x63, 0x6c, 0x69, 0x65, 0x6e, 0x74, 0x4e, 0x61, 0x6d, 0x65, 0x22, 0x3a, 0x20, 0x22,
    0x22, 0x2c, 0x22, 0x63, 0x6c, 0x69, 0x65, 0x6e, 0x74, 0x49, 0x6e, 0x74, 0x65, 0x72, 0x6e, 0x61,
    0x6c, 0x4e, 0x61, 0x6d, 0x65, 0x22, 0x3a, 0x20, 0x22, 0x22, 0x2c, 0x22, 0x63, 0x6c, 0x69, 0x65,
    0x6e, 0x74, 0x54, 0x79, 0x70, 0x65, 0x22, 0x3a, 0x20, 0x22, 0x50, 0x43, 0x22, 0x2c, 0x22, 0x63,
    0x6c, 0x69, 0x65, 0x6e, 0x74, 0x44, 0x65, 0x73, 0x63, 0x72, 0x69, 0x70, 0x74, 0x69, 0x6f, 0x6e,
    0x22, 0x3a, 0x20, 0x22, 0x44, 0x45, 0x53, 0x4b, 0x54, 0x4f, 0x50, 0x22, 0x2c, 0x22, 0x63, 0x6c,
    0x69, 0x65, 0x6e, 0x74, 0x49, 0x64, 0x65, 0x6e, 0x74, 0x69, 0x66, 0x69, 0x65, 0x72, 0x22, 0x3a,
    0x20, 0x22, 0x44, 0x45, 0x53, 0x4b, 0x54, 0x4f, 0x50, 0x22, 0x2c, 0x22, 0x63, 0x6c, 0x69, 0x65,
    0x6e, 0x74, 0x4f, 0x70, 0x74, 0x69, 0x6f, 0x6e, 0x73, 0x22, 0x3a, 0x20, 0x22, 0x22, 0x2c, 0x22,
    0x63, 0x6c, 0x69, 0x65, 0x6e, 0x74, 0x45, 0x6e, 0x63, 0x6f, 0x64, 0x69, 0x6e, 0x67, 0x22, 0x3a,
    0x20, 0x32, 0x33, 0x31, 0x31, 0x37, 0x7d, 0x55, 0x43, 0x00, 0x01, 0x08, 0x00, 0x55, 0x4d, 0x00,
    0x00, 0x67, 0x00, 0x5e, 0xf1, 0x55, 0x43, 0x00, 0x01, 0xc3, 0x00, 0x4a, 0x4d, 0x66, 0x00, 0x67,
    0x00, 0xb9, 0x00, 0x00, 0x00, 0x7b, 0x22, 0x69, 0x64, 0x22, 0x3a, 0x20, 0x22, 0x53, 0x75, 0x62,
    0x73, 0x63, 0x72, 0x69, 0x62, 0x65, 0x22, 0x2c, 0x22, 0x63, 0x6c, 0x69, 0x65, 0x6e, 0x74, 0x4e,
    0x61, 0x6d, 0x65, 0x22, 0x3a, 0x20, 0x22, 0x22, 0x2c, 0x22, 0x63, 0x6c, 0x69, 0x65, 0x6e, 0x74,
    0x49, 0x6e, 0x74, 0x65, 0x72, 0x6e, 0x61, 0x6c, 0x4e, 0x61, 0x6d, 0x65, 0x22, 0x3a, 0x20, 0x22,
    0x22, 0x2c, 0x22, 0x63, 0x6c, 0x69, 0x65, 0x6e, 0x74, 0x54, 0x79, 0x70, 0x65, 0x22, 0x3a, 0x20,
    0x22, 0x50, 0x43, 0x22, 0x2c, 0x22, 0x63, 0x6c, 0x69, 0x65, 0x6e, 0x74, 0x44, 0x65, 0x73, 0x63,
    0x72, 0x69, 0x70, 0x74, 0x69, 0x6f, 0x6e, 0x22, 0x3a, 0x20, 0x22, 0x44, 0x45, 0x53, 0x4b, 0x54,
    0x4f, 0x50, 0x22, 0x2c, 0x22, 0x63, 0x6c, 0x69, 0x65, 0x6e, 0x74, 0x49, 0x64, 0x65, 0x6e, 0x74,
    0x69, 0x66, 0x69, 0x65, 0x72, 0x22, 0x3a, 0x20, 0x22, 0x44, 0x45, 0x53, 0x4b, 0x54, 0x4f, 0x50,
    0x22, 0x2c, 0x22, 0x63, 0x6c, 0x69, 0x65, 0x6e, 0x74, 0x4f, 0x70, 0x74, 0x69, 0x6f, 0x6e, 0x73,
    0x22, 0x3a, 0x20, 0x22, 0x22, 0x2c, 0x22, 0x63, 0x6c, 0x69, 0x65, 0x6e, 0x74, 0x45, 0x6e, 0x63,
    0x6f, 0x64, 0x69, 0x6e, 0x67, 0x22, 0x3a, 0x20, 0x32, 0x33, 0x31, 0x31, 0x37, 0x7d, 0x55, 0x43,
    0x00, 0x01, 0x06, 0x00, 0x4b, 0x41, 0x66, 0x00, 0x67, 0x00, 0x55, 0x43, 0x00, 0x01, 0x4f, 0x00,
    0x4a, 0x4d, 0x66, 0x00, 0x67, 0x00, 0x45, 0x00, 0x00, 0x00, 0x7b, 0x22, 0x69, 0x64, 0x22, 0x3a,
    0x20, 0x22, 0x49, 0x6e, 0x76, 0x6f, 0x6b, 0x65, 0x4d, 0x65, 0x74, 0x68, 0x6f, 0x64, 0x22, 0x2c,
    0x22, 0x75, 0x72, 0x6c, 0x22, 0x3a, 0x20, 0x22, 0x22, 0x2c, 0x22, 0x6d, 0x65, 0x74, 0x68, 0x6f,
    0x64, 0x22, 0x3a, 0x20, 0x22, 0x67, 0x65, 0x74, 0x4f, 0x70, 0x74, 0x69, 0x6f, 0x6e, 0x73, 0x22,
    0x2c, 0x22, 0x63, 0x61, 0x6c, 0x6c, 0x69, 0x64, 0x22, 0x3a, 0x20, 0x31, 0x30, 0x30, 0x7d, 0x55,
    0x43, 0x00, 0x01, 0x06, 0x00, 0x4b, 0x41, 0x6a, 0x00, 0x65, 0x00, 0x55, 0x43, 0x00, 0x01, 0x54,
    0x00, 0x4a, 0x4d, 0x68, 0x00, 0x67, 0x00, 0x4a, 0x00, 0x00, 0x00, 0x7b, 0x22, 0x69, 0x64, 0x22,
    0x3a, 0x20, 0x22, 0x49, 0x6e, 0x76, 0x6f, 0x6b, 0x65, 0x4d, 0x65, 0x74, 0x68, 0x6f, 0x64, 0x22,
    0x2c, 0x22, 0x75, 0x72, 0x6c, 0x22, 0x3a, 0x20, 0x22, 0x22, 0x2c, 0x22, 0x6d, 0x65, 0x74, 0x68,
    0x6f, 0x64, 0x22, 0x3a, 0x20, 0x22, 0x67, 0x65, 0x74, 0x57, 0x44, 0x4d, 0x53, 0x65, 0x74, 0x75,
    0x70, 0x4c, 0x69, 0x73, 0x74, 0x22, 0x2c, 0x22, 0x63, 0x61, 0x6c, 0x6c, 0x69, 0x64, 0x22, 0x3a,
    0x20, 0x31, 0x30, 0x31, 0x7d, 0x55, 0x43, 0x00, 0x01, 0x06, 0x00, 0x4b, 0x41, 0x68, 0x00, 0x67,
    0x00, 0x55, 0x43, 0x00, 0x01, 0x06, 0x00, 0x4b, 0x41, 0x6a, 0x00, 0x65, 0x00, 0x55, 0x43, 0x00,
    0x01, 0x06, 0x00, 0x4b, 0x41, 0x6b, 0x00, 0x66, 0x00, 0x55, 0x43, 0x00, 0x01, 0x1a, 0x00, 0x50,
    0x56, 0x6b, 0x00, 0x66, 0x00, 0x6c, 0x69, 0x6e, 0x65, 0x2f, 0x63, 0x68, 0x31, 0x2f, 0x6d, 0x75,
    0x74, 0x65, 0x00, 0x00, 0x00, 0x00, 0x00, 0x80, 0x3f, 0x55, 0x43, 0x00, 0x01, 0x08, 0x00, 0x55,
    0x4d, 0x00, 0x00, 0x66, 0x00, 0x84, 0xe8, 0x55, 0x43, 0x00, 0x01, 0xe3, 0x00, 0x4a, 0x4d, 0x6b,
    0x00, 0x66, 0x00, 0xd9, 0x00, 0x00, 0x00, 0x7b, 0x22, 0x69, 0x64, 0x22, 0x3a, 0x20, 0x22, 0x53,
    0x75, 0x62, 0x73, 0x63, 0x72, 0x69, 0x62, 0x65, 0x22, 0x2c, 0x22, 0x63, 0x6c, 0x69, 0x65, 0x6e,
    0x74, 0x4e, 0x61, 0x6d, 0x65, 0x22, 0x3a, 0x20, 0x22, 0x55, 0x6e, 0x69, 0x76, 0x65, 0x72, 0x73,
    0x61, 0x6c, 0x20, 0x43, 0x6f, 0x6e, 0x74, 0x72, 0x6f, 0x6c, 0x22, 0x2c, 0x22, 0x63, 0x6c, 0x69,
    0x65, 0x6e, 0x74, 0x49, 0x6e, 0x74, 0x65, 0x72, 0x6e, 0x61, 0x6c, 0x4e, 0x61, 0x6d, 0x65, 0x22,
    0x3a, 0x20, 0x22, 0x75, 0x63, 0x61, 0x70, 0x70, 0x22, 0x2c, 0x22, 0x63, 0x6c, 0x69, 0x65, 0x6e,
    0x74, 0x54, 0x79, 0x70, 0x65, 0x22, 0x3a, 0x20, 0x22, 0x50, 0x43, 0x22, 0x2c, 0x22, 0x63, 0x6c,
    0x69, 0x65, 0x6e, 0x74, 0x44, 0x65, 0x73, 0x63, 0x72, 0x69, 0x70, 0x74, 0x69, 0x6f, 0x6e, 0x22,
    0x3a, 0x20, 0x22, 0x44, 0x45, 0x53, 0x4b, 0x54, 0x4f, 0x50, 0x22, 0x2c, 0x22, 0x63, 0x6c, 0x69,
    0x65, 0x6e, 0x74, 0x49, 0x64, 0x65, 0x6e, 0x74, 0x69, 0x66, 0x69, 0x65, 0x72, 0x22, 0x3a, 0x20,
    0x22, 0x44, 0x45, 0x53, 0x4b, 0x54, 0x4f, 0x50, 0x22, 0x2c, 0x22, 0x63, 0x6c, 0x69, 0x65, 0x6e,
    0x74, 0x4f, 0x70, 0x74, 0x69, 0x6f, 0x6e, 0x73, 0x22, 0x3a, 0x20, 0x22, 0x70, 0x65, 0x72, 0x6d,
    0x20, 0x75, 0x73, 0x65, 0x72, 0x73, 0x22, 0x2c, 0x22, 0x63, 0x6c, 0x69, 0x65, 0x6e, 0x74, 0x45,
    0x6e, 0x63, 0x6f, 0x64, 0x69, 0x6e, 0x67, 0x22, 0x3a, 0x20, 0x32, 0x33, 0x31, 0x31, 0x37, 0x7d,
    0x55, 0x43, 0x00, 0x01, 0x1d, 0x00, 0x46, 0x52, 0x6b, 0x00, 0x66, 0x00, 0x01, 0x00, 0x4c, 0x69,
    0x73, 0x74, 0x70, 0x72, 0x65, 0x73, 0x65, 0x74, 0x73, 0x2f, 0x63, 0x68, 0x61, 0x6e, 0x6e, 0x65,
    0x6c, 0x00, 0x00,
];

#[test]
fn startup_capture_decodes_frame_by_frame() {
    let mut codec = PacketCodec {};
    let mut buf = BytesMut::from(&STARTUP_CAPTURE[..]);
    let mut kinds = Vec::new();
    let mut offset = 0usize;
    while !buf.is_empty() {
        assert!(codec.can_decode(&buf));
        let before = buf.len();
        let packet = codec.decode(&mut buf).unwrap().unwrap();
        let used = before - buf.len();
        let kind = match &packet {
            UcPacket::JM(..) => "JM",
            UcPacket::UM { .. } => "UM",
            UcPacket::KA(..) => "KA",
            UcPacket::PV(..) => "PV",
            UcPacket::FR(..) => "FR",
            UcPacket::ZM { .. } => "ZM",
            UcPacket::PS(..) => "PS",
            UcPacket::PL(..) => "PL",
        };
        // every recorded frame is written back byte for byte
        assert_eq!(ser(&packet), STARTUP_CAPTURE[offset..offset + used].to_vec());
        offset += used;
        kinds.push(kind);
    }
    assert_eq!(
        kinds,
        vec!["UM", "JM", "UM", "JM", "KA", "JM", "KA", "JM", "KA", "KA", "KA", "PV", "UM", "JM", "FR"]
    );
}

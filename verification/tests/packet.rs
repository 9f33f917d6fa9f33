use ultimate_control::packet::{
    contents_are_parsable, deser, is_serializable, parse_header, parse_packet_contents, read_packet, ser,
    write_packet,
};
use ultimate_control::types::{AddressPair, UcPacket};
use ultimate_control::wire::PacketError;

#[test]
fn packet_um() {
    let buf = vec![
        // UC01
        0x55, 0x43, 0x00, 0x01, // size
        0x08, 0x00, // UM
        0x55, 0x4d, // 6 bytes data
        0x00, 0x00, 0x65, 0x00, 0x5e, 0xf1,
    ];

    let packet = UcPacket::UM { ap: AddressPair { a: 0, b: 0x65 }, udp_port: 61790 };

    {
        let out = ser(&packet);
        assert_eq!(out, buf);
    }

    {
        let packet_2 = deser(&buf);
        assert_eq!(packet, packet_2);
    }
}

#[test]
fn packet_ka() {
    let buf = vec![
        // UC01
        0x55, 0x43, 0x00, 0x01, // size - 6 bytes
        0x06, 0x00, // 4b(K), 41(A)
        0x4b, 0x41, // 6b00 -> 6600 (k->f)
        0x6b, 0x00, 0x66, 0x00,
    ];

    let packet = UcPacket::KA(AddressPair { a: 0x6b, b: 0x66 });

    {
        let out = ser(&packet);
        assert_eq!(out, buf);
    }

    {
        let packet_2 = deser(&buf);
        assert_eq!(packet, packet_2);
    }
}

#[test]
fn packet_pv() {
    // mute packet
    let buf = vec![
        // UC01
        0x55, 0x43, 0x00, 0x01, // size - 26 bytes
        0x1a, 0x00, // PV
        0x50, 0x56, // 6b00 -> 6600 (k->f) // the response sends (f->k)
        0x6b, 0x00, 0x66, 0x00, // string: line/ch1/mute
        // with zeros at the end
        0x6c, 0x69, 0x6e, 0x65, 0x2f, 0x63, 0x68, 0x31, 0x2f, 0x6d, 0x75, 0x74, 0x65, 0x00, 0x00,
        0x00, 0x00, 0x00, // this isn't always here - sometimes it's 00 00
        0x80, 0x3f,
    ];

    let packet = UcPacket::PV(
        AddressPair { a: 0x6b, b: 0x66 },
        "line/ch1/mute".to_string(),
        1.0f32.to_bits(),
    );

    {
        let out = ser(&packet);
        assert_eq!(out, buf);
    }

    {
        let packet_2 = deser(&buf);
        assert_eq!(packet, packet_2);
    }
}

#[test]
fn packet_jm() {
    let buf = vec![
        // UC01
        0x55, 0x43, 0x00, 0x01, 0x4f, 0x00, // JM
        0x4a, 0x4d, 0x66, 0x00, 0x67, 0x00, // json size
        0x45, 0x00, 0x00, 0x00, // json data
        0x7b, 0x22, 0x69, 0x64, 0x22, 0x3a, 0x20, 0x22, 0x49, 0x6e, 0x76, 0x6f, 0x6b, 0x65, 0x4d,
        0x65, 0x74, 0x68, 0x6f, 0x64, 0x22, 0x2c, 0x22, 0x75, 0x72, 0x6c, 0x22, 0x3a, 0x20, 0x22,
        0x22, 0x2c, 0x22, 0x6d, 0x65, 0x74, 0x68, 0x6f, 0x64, 0x22, 0x3a, 0x20, 0x22, 0x67, 0x65,
        0x74, 0x4f, 0x70, 0x74, 0x69, 0x6f, 0x6e, 0x73, 0x22, 0x2c, 0x22, 0x63, 0x61, 0x6c, 0x6c,
        0x69, 0x64, 0x22, 0x3a, 0x20, 0x31, 0x30, 0x30, 0x7d,
    ];

    let json = r#"{"id": "InvokeMethod","url": "","method": "getOptions","callid": 100}"#;

    let packet = UcPacket::JM(AddressPair { a: 0x66, b: 0x67 }, json.to_string());

    {
        let out = ser(&packet);
        assert_eq!(out, buf);
    }

    {
        let packet_2 = deser(&buf);
        assert_eq!(packet, packet_2);
    }
}

fn roundtrip(packet: UcPacket) {
    let bytes = ser(&packet);
    assert_eq!(deser(&bytes), packet);
}

#[test]
fn written_packets_read_back() {
    roundtrip(UcPacket::JM(AddressPair { a: 1, b: 0x1234 }, "{\"é\": \"ü€😀\"}".to_string()));
    roundtrip(UcPacket::UM { ap: AddressPair { a: 0xffff, b: 0 }, udp_port: 0xbeef });
    roundtrip(UcPacket::KA(AddressPair { a: 0x6b, b: 0x66 }));
    roundtrip(UcPacket::PV(AddressPair { a: 2, b: 3 }, "line/ch2/volume".to_string(), 0.735f32.to_bits()));
    roundtrip(UcPacket::FR(AddressPair { a: 0x6b, b: 0x66 }, 0x1234, "Listpresets/channel".to_string()));
    roundtrip(UcPacket::ZM { ap: AddressPair { a: 3, b: 4 }, unknown: 77, compressed_payload: vec![0x78, 0x5e, 1, 2] });
    roundtrip(UcPacket::PL(
        AddressPair { a: 5, b: 6 },
        "Listpresets/channel".to_string(),
        vec!["Vocal".to_string(), "".to_string(), "Guitar 2".to_string()],
    ));
    roundtrip(UcPacket::PS(AddressPair { a: 7, b: 8 }, vec![1, 2, 3, 0, 255]));
}

#[test]
fn read_ignores_bytes_after_the_frame() {
    let packet = UcPacket::KA(AddressPair { a: 0x6b, b: 0x66 });
    let mut bytes = ser(&packet);
    bytes.extend_from_slice(&[0x55, 0x43, 0x00, 0x01, 0x09]);
    assert_eq!(read_packet(&bytes), Ok(packet));
}

#[test]
fn write_packet_appends() {
    let mut w = vec![9u8, 9];
    write_packet(&UcPacket::KA(AddressPair { a: 1, b: 2 }), &mut w);
    assert_eq!(w, vec![9, 9, 0x55, 0x43, 0, 1, 6, 0, 0x4b, 0x41, 1, 0, 2, 0]);
}

#[test]
fn fr_number_is_little_endian() {
    // the recorded preset query: 16-bit value 1, then the query text
    let frame = vec![
        0x55, 0x43, 0x00, 0x01, 0x1d, 0x00, 0x46, 0x52, 0x6b, 0x00, 0x66, 0x00, 0x01, 0x00,
        0x4c, 0x69, 0x73, 0x74, 0x70, 0x72, 0x65, 0x73, 0x65, 0x74, 0x73, 0x2f, 0x63, 0x68, 0x61,
        0x6e, 0x6e, 0x65, 0x6c, 0x00, 0x00,
    ];
    let p = deser(&frame);
    assert_eq!(
        p,
        UcPacket::FR(AddressPair { a: 0x6b, b: 0x66 }, 1, "Listpresets/channel\0\0".to_string())
    );
    assert_eq!(ser(&p), frame);
    let out = ser(&UcPacket::FR(AddressPair { a: 0x6b, b: 0x66 }, 0x0201, "ab".to_string()));
    assert_eq!(out, vec![0x55, 0x43, 0, 1, 10, 0, 0x46, 0x52, 0x6b, 0, 0x66, 0, 1, 2, b'a', b'b']);
    assert_eq!(deser(&out), UcPacket::FR(AddressPair { a: 0x6b, b: 0x66 }, 0x0201, "ab".to_string()));
}

#[test]
fn zm_size_field_counts_all_bytes_after_it() {
    let packet = UcPacket::ZM {
        ap: AddressPair { a: 1, b: 2 },
        unknown: 0x0a0b0c0d,
        compressed_payload: vec![0x78, 0x01, 5, 6, 7, 8],
    };
    let out = ser(&packet);
    assert_eq!(
        out,
        vec![0x55, 0x43, 0, 1, 16, 0, 0x5a, 0x4d, 1, 0, 2, 0, 0x0d, 0x0c, 0x0b, 0x0a, 0x78, 0x01, 5, 6, 7, 8]
    );
    assert_eq!(deser(&out), packet);
    let empty = UcPacket::ZM { ap: AddressPair { a: 0, b: 0 }, unknown: 0, compressed_payload: vec![] };
    let out = ser(&empty);
    assert_eq!(out.len(), 16);
    assert_eq!(&out[4..6], &[10, 0]);
    assert_eq!(deser(&out), empty);
}

#[test]
fn pv_size_field_and_value() {
    let packet = UcPacket::PV(AddressPair { a: 0, b: 0 }, "x".to_string(), 0x11223344);
    let out = ser(&packet);
    assert_eq!(out, vec![0x55, 0x43, 0, 1, 14, 0, 0x50, 0x56, 0, 0, 0, 0, b'x', 0, 0, 0, 0x44, 0x33, 0x22, 0x11]);
}

#[test]
fn pl_written_and_parsed() {
    let packet = UcPacket::PL(
        AddressPair { a: 0x6b, b: 0x66 },
        "presets".to_string(),
        vec!["one".to_string(), "two".to_string()],
    );
    let out = ser(&packet);
    // the names are separated by a newline, the last one ends with a zero byte
    let mut expected = vec![0x55, 0x43, 0, 1, 28, 0, 0x50, 0x4c, 0x6b, 0, 0x66, 0];
    expected.extend_from_slice(b"presets");
    expected.extend_from_slice(&[0; 7]);
    expected.extend_from_slice(b"one\ntwo\0");
    assert_eq!(out, expected);
    assert_eq!(deser(&out), packet);

    let no_names = UcPacket::PL(AddressPair { a: 1, b: 2 }, "k".to_string(), vec![]);
    let out = ser(&no_names);
    assert_eq!(out.len(), 6 + 14);
    assert_eq!(&out[4..6], &[14, 0]);
    assert_eq!(deser(&out), no_names);

    // key up to the first zero; names behind the 7 zero bytes, split at
    // newlines, ended by a zero byte; Latin-1 characters
    let mut contents = vec![0x50, 0x4c, 0x6b, 0, 0x66, 0];
    contents.extend_from_slice(b"k");
    contents.extend_from_slice(&[0; 7]);
    contents.extend_from_slice(b"a\xe9\nbc\n\0ignored");
    assert_eq!(
        parse_packet_contents(&contents),
        Ok(UcPacket::PL(
            AddressPair { a: 0x6b, b: 0x66 },
            "k".to_string(),
            vec!["a\u{e9}".to_string(), "bc".to_string(), "".to_string()],
        ))
    );

    // without a zero byte the key runs to the end and there are no names
    let contents = vec![0x50, 0x4c, 1, 0, 2, 0, b'x', b'\n', b'y'];
    assert_eq!(
        parse_packet_contents(&contents),
        Ok(UcPacket::PL(AddressPair { a: 1, b: 2 }, "x\ny".to_string(), vec![]))
    );

    // a name that no newline or zero byte ends is dropped
    let mut contents = vec![0x50, 0x4c, 1, 0, 2, 0, b'k'];
    contents.extend_from_slice(&[0; 7]);
    contents.extend_from_slice(b"a\nb");
    assert_eq!(
        parse_packet_contents(&contents),
        Ok(UcPacket::PL(AddressPair { a: 1, b: 2 }, "k".to_string(), vec!["a".to_string()]))
    );
}

#[test]
fn read_errors() {
    assert_eq!(read_packet(&[0x55, 0x43, 0, 1, 2]), Err(PacketError::TooSmall));
    assert_eq!(read_packet(&[0x55, 0x44, 0, 1, 2, 0, 1, 2]), Err(PacketError::BadMagic));
    assert_eq!(
        read_packet(&[0x55, 0x43, 0, 1, 7, 0, 0x55, 0x4d, 0, 0, 0, 0, 1]),
        Err(PacketError::WrongUmLength)
    );
    assert_eq!(
        read_packet(&[0x55, 0x43, 0, 1, 6, 0, 0x51, 0x52, 0, 0, 0, 0]),
        Err(PacketError::UnknownType(0x51, 0x52))
    );
}

#[test]
fn header_checks() {
    assert_eq!(parse_header(&[0x55, 0x43, 0, 1, 0x1a, 0x01]), Ok(0x011a));
    assert_eq!(parse_header(&[0x55, 0x43, 0, 1]), Err(PacketError::TooSmall));
    assert_eq!(parse_header(&[0x55, 0x43, 1, 1, 0, 0]), Err(PacketError::BadMagic));
}

#[test]
fn parsable_contents() {
    assert!(!contents_are_parsable(&[0x4b, 0x41, 0, 0, 0]));
    assert!(contents_are_parsable(&[0x4b, 0x41, 0, 0, 0, 0]));
    assert!(!contents_are_parsable(&[0x4a, 0x4d, 0, 0, 0, 0, 0, 0, 0]));
    assert!(!contents_are_parsable(&[0x4a, 0x4d, 0, 0, 0, 0, 0, 0, 0, 0, 0xff]));
    assert!(contents_are_parsable(&[0x4a, 0x4d, 0, 0, 0, 0, 0, 0, 0, 0, b'{', b'}']));
    assert!(!contents_are_parsable(&[0x50, 0x56, 0, 0, 0, 0, 0, 0, 0, 0, 0, 0]));
    assert!(!contents_are_parsable(&[0x5a, 0x4d, 0, 0, 0, 0, 0, 0, 0]));
    assert!(!contents_are_parsable(&[0x46, 0x52, 0, 0, 0, 0, 0]));
    assert!(contents_are_parsable(&[0x99, 0x99, 0, 0, 0, 0]));
}

#[test]
fn serializable_limits() {
    let ap = AddressPair { a: 0, b: 0 };
    assert!(is_serializable(&UcPacket::JM(ap, "a".repeat(65525))));
    assert!(!is_serializable(&UcPacket::JM(ap, "a".repeat(65526))));
    assert!(is_serializable(&UcPacket::PV(ap, "a".repeat(65522), 0)));
    assert!(!is_serializable(&UcPacket::PV(ap, "a".repeat(65523), 0)));
    // the 16-bit size wraps around for a long name
    assert!(is_serializable(&UcPacket::PV(ap, "a".repeat(65532), 0)));
    assert!(is_serializable(&UcPacket::PL(ap, "k".to_string(), vec!["a".repeat(65520)])));
    assert!(!is_serializable(&UcPacket::PL(ap, "k".to_string(), vec!["a".repeat(65521)])));
    assert!(is_serializable(&UcPacket::PS(ap, vec![0; 70000])));
}

#[test]
fn long_ps_size_wraps() {
    let out = ser(&UcPacket::PS(AddressPair { a: 0, b: 0 }, vec![7; 65536]));
    assert_eq!(&out[4..6], &[6, 0]);
    assert_eq!(out.len(), 6 + 6 + 65536);
}

use miniz_oxide::deflate::compress_to_vec_zlib;
use ultimate_control::semantic::{decode_zm_packet_data, text_of_inflated, try_decode_zm_packet_data};

#[test]
fn zm_payload_inflates_to_text() {
    let text = "{\"id\": \"UserPreset\", \"children\": []}";
    let compressed = compress_to_vec_zlib(text.as_bytes(), 6);
    assert_eq!(decode_zm_packet_data(&compressed), text);
    assert_eq!(try_decode_zm_packet_data(&compressed), Some(text.to_string()));
}

#[test]
fn zm_payload_failures() {
    assert_eq!(try_decode_zm_packet_data(&vec![0x78]), None);
    assert_eq!(try_decode_zm_packet_data(&vec![0x78, 0x01, 0xff, 0xff, 0xff]), None);
    let not_text = compress_to_vec_zlib(&[0xff, 0xfe, 0x00], 6);
    assert_eq!(try_decode_zm_packet_data(&not_text), None);
    // more than the output limit
    let big = compress_to_vec_zlib(&vec![b'a'; 600001], 6);
    assert_eq!(try_decode_zm_packet_data(&big), None);
    let fits = compress_to_vec_zlib(&vec![b'a'; 1000], 6);
    assert_eq!(try_decode_zm_packet_data(&fits).map(|s| s.len()), Some(1000));
}

#[test]
fn inflated_text() {
    assert_eq!(text_of_inflated(b"caf\xc3\xa9".to_vec()), "caf\u{e9}");
}

//! The wire format of the protocol, stated over byte sequences.
//!
//! A frame is the 4-byte magic `U C 0x00 0x01`, a little-endian 16-bit size,
//! then the payload: a 2-letter packet type, an address pair and the
//! type-specific data.
use vstd::prelude::*;
use vstd::utf8::*;

use crate::types::{AddressPair, UcPacket};

verus! {

/// The abstract content of a packet: text fields by their characters,
/// binary fields by their bytes.
pub enum PacketModel {
    JM { ap: AddressPair, json: Seq<char> },
    UM { ap: AddressPair, udp_port: u16 },
    KA { ap: AddressPair },
    PV { ap: AddressPair, name: Seq<char>, value_bits: u32 },
    FR { ap: AddressPair, number: u16, query: Seq<char> },
    ZM { ap: AddressPair, unknown: u32, payload: Seq<u8> },
    PS { ap: AddressPair, data: Seq<u8> },
    PL { ap: AddressPair, key: Seq<char>, names: Seq<Seq<char>> },
}

pub open spec fn string_views(v: Seq<String>) -> Seq<Seq<char>> {
    v.map_values(|s: String| s@)
}

impl View for UcPacket {
    type V = PacketModel;

    open spec fn view(&self) -> PacketModel {
        match self {
            UcPacket::JM(ap, s) => PacketModel::JM { ap: *ap, json: s@ },
            UcPacket::UM { ap, udp_port } => PacketModel::UM { ap: *ap, udp_port: *udp_port },
            UcPacket::KA(ap) => PacketModel::KA { ap: *ap },
            UcPacket::PV(ap, n, v) => PacketModel::PV { ap: *ap, name: n@, value_bits: *v },
            UcPacket::FR(ap, k, q) => PacketModel::FR { ap: *ap, number: *k, query: q@ },
            UcPacket::ZM { ap, unknown, compressed_payload } => PacketModel::ZM {
                ap: *ap,
                unknown: *unknown,
                payload: compressed_payload@,
            },
            UcPacket::PS(ap, d) => PacketModel::PS { ap: *ap, data: d@ },
            UcPacket::PL(ap, k, ns) => PacketModel::PL {
                ap: *ap,
                key: k@,
                names: string_views(ns@),
            },
        }
    }
}

/// Errors reported while reading or decoding packets.
#[derive(Debug, Clone, Copy, PartialEq, Eq, Structural)]
pub enum PacketError {
    /// Fewer than the 6 header bytes were available.
    TooSmall,
    /// The header does not start with `U C 0x00 0x01`.
    BadMagic,
    /// A `UM` packet whose contents are not exactly 8 bytes long.
    WrongUmLength,
    /// The two type letters are not those of a known packet type.
    UnknownType(u8, u8),
}

pub open spec fn model_result(r: Result<UcPacket, PacketError>) -> Result<PacketModel, PacketError> {
    match r {
        Ok(p) => Ok(p@),
        Err(e) => Err(e),
    }
}

// ---------------------------------------------------------------------------
// Little-endian integers
// ---------------------------------------------------------------------------
pub open spec fn le16(v: u16) -> Seq<u8> {
    seq![(v % 256) as u8, (v / 256) as u8]
}

pub open spec fn le32(v: u32) -> Seq<u8> {
    seq![(v % 256) as u8, ((v / 256) % 256) as u8, ((v / 65536) % 256) as u8, (v / 16777216) as u8]
}

/// The little-endian 16-bit value at index `i` of `b`.
pub open spec fn u16_at(b: Seq<u8>, i: int) -> u16 {
    (b[i] + 256 * b[i + 1]) as u16
}

/// The little-endian 32-bit value at index `i` of `b`.
pub open spec fn u32_at(b: Seq<u8>, i: int) -> u32 {
    (b[i] + 256 * b[i + 1] + 65536 * b[i + 2] + 16777216 * b[i + 3]) as u32
}

pub open spec fn magic() -> Seq<u8> {
    seq![0x55u8, 0x43u8, 0x00u8, 0x01u8]
}

pub open spec fn ap_bytes(ap: AddressPair) -> Seq<u8> {
    le16(ap.a) + le16(ap.b)
}

pub open spec fn tag(x: u8, y: u8) -> Seq<u8> {
    seq![x, y]
}

pub open spec fn frame(size: nat, payload: Seq<u8>) -> Seq<u8> {
    magic() + le16(size as u16) + payload
}

// ---------------------------------------------------------------------------
// Serialisation
// ---------------------------------------------------------------------------
/// Total UTF-8 length of a list of strings.
pub open spec fn utf8_total_len(ns: Seq<Seq<char>>) -> nat
    decreases ns.len(),
{
    if ns.len() == 0 {
        0
    } else {
        utf8_total_len(ns.drop_last()) + encode_utf8(ns.last()).len()
    }
}

/// The UTF-8 encodings of a list of strings, each followed by a newline.
pub open spec fn utf8_lines(ns: Seq<Seq<char>>) -> Seq<u8>
    decreases ns.len(),
{
    if ns.len() == 0 {
        seq![]
    } else {
        utf8_lines(ns.drop_last()) + encode_utf8(ns.last()) + seq![0x0au8]
    }
}

/// The name list of a `PL` packet: the names separated by newlines, the
/// last one followed by a zero byte.
pub open spec fn pl_names_bytes(ns: Seq<Seq<char>>) -> Seq<u8> {
    if ns.len() == 0 {
        seq![]
    } else {
        utf8_lines(ns.drop_last()) + encode_utf8(ns.last()) + seq![0u8]
    }
}

/// The length that a `PL` packet declares for its list of names:
/// their bytes plus one per name.
pub open spec fn pl_names_size(ns: Seq<Seq<char>>) -> int {
    (utf8_total_len(ns) + ns.len()) as int
}

/// The size field of the frame of a packet, as the writer computes it.
pub open spec fn size_field(m: PacketModel) -> nat {
    match m {
        PacketModel::JM { json, .. } => encode_utf8(json).len() + 10,
        PacketModel::UM { .. } => 8,
        PacketModel::KA { .. } => 6,
        PacketModel::PV { name, .. } => (encode_utf8(name).len() + 4) % 65536 + 9,
        PacketModel::FR { query, .. } => (encode_utf8(query).len() + 8) % 65536,
        PacketModel::ZM { payload, .. } => (payload.len() + 10) % 65536,
        PacketModel::PS { data, .. } => (data.len() + 6) % 65536,
        PacketModel::PL { key, names, .. } => (13 + encode_utf8(key).len() % 65536
            + pl_names_size(names) % 65536) as nat,
    }
}

/// The payload that the writer puts after the size field.
pub open spec fn payload_bytes(m: PacketModel) -> Seq<u8> {
    match m {
        PacketModel::JM { ap, json } => tag(0x4a, 0x4d) + ap_bytes(ap) + le32(
            encode_utf8(json).len() as u32,
        ) + encode_utf8(json),
        PacketModel::UM { ap, udp_port } => tag(0x55, 0x4d) + ap_bytes(ap) + le16(udp_port),
        PacketModel::KA { ap } => tag(0x4b, 0x41) + ap_bytes(ap),
        PacketModel::PV { ap, name, value_bits } => tag(0x50, 0x56) + ap_bytes(ap) + encode_utf8(
            name,
        ) + seq![0u8, 0u8, 0u8] + le32(value_bits),
        PacketModel::FR { ap, number, query } => tag(0x46, 0x52) + ap_bytes(ap) + le16(number)
            + encode_utf8(query),
        PacketModel::ZM { ap, unknown, payload } => tag(0x5a, 0x4d) + ap_bytes(ap) + le32(unknown)
            + payload,
        PacketModel::PS { ap, data } => tag(0x50, 0x53) + ap_bytes(ap) + data,
        PacketModel::PL { ap, key, names } => tag(0x50, 0x4c) + ap_bytes(ap) + encode_utf8(key)
            + Seq::new(7, |i: int| 0u8) + pl_names_bytes(names),
    }
}

/// The bytes that writing a packet produces.
pub open spec fn encode(m: PacketModel) -> Seq<u8> {
    frame(size_field(m), payload_bytes(m))
}

/// The packets that the writer accepts: the size field fits in 16 bits where
/// the writer checks it.
pub open spec fn serializable(m: PacketModel) -> bool {
    match m {
        PacketModel::JM { json, .. } => encode_utf8(json).len() + 10 <= 0xffff,
        PacketModel::PV { name, .. } => (encode_utf8(name).len() + 4) % 65536 + 9 <= 0xffff,
        PacketModel::PL { key, names, .. } => {
            &&& pl_names_size(names) <= usize::MAX
            &&& 13 + encode_utf8(key).len() % 65536 + pl_names_size(names) % 65536 <= 0xffff
        },
        _ => true,
    }
}

// ---------------------------------------------------------------------------
// Parsing
// ---------------------------------------------------------------------------
pub open spec fn has_tag(b: Seq<u8>, x: u8, y: u8) -> bool {
    b[0] == x && b[1] == y
}

pub open spec fn address_at(b: Seq<u8>) -> AddressPair {
    AddressPair { a: u16_at(b, 2), b: u16_at(b, 4) }
}

/// The bytes read as Latin-1 characters.
pub open spec fn latin1(b: Seq<u8>) -> Seq<char> {
    b.map_values(|x: u8| x as char)
}

/// Scans a `PL` key: the characters up to the first zero byte, and whether
/// a zero byte was found.
pub open spec fn pl_key_scan(s: Seq<u8>, acc: Seq<char>) -> (Seq<char>, bool)
    decreases s.len(),
{
    if s.len() == 0 {
        (acc, false)
    } else if s[0] == 0 {
        (acc, true)
    } else {
        pl_key_scan(s.drop_first(), acc.push(s[0] as char))
    }
}

/// Splits a `PL` name list at newline bytes; a zero byte ends the list.
/// A name that is not ended by a newline or a zero byte is dropped.
pub open spec fn pl_names_scan(s: Seq<u8>, cur: Seq<char>) -> Seq<Seq<char>>
    decreases s.len(),
{
    if s.len() == 0 {
        seq![]
    } else if s[0] == 0 {
        seq![cur]
    } else if s[0] == 0x0a {
        seq![cur] + pl_names_scan(s.drop_first(), seq![])
    } else {
        pl_names_scan(s.drop_first(), cur.push(s[0] as char))
    }
}

/// The names of a `PL` packet: read from behind the 7 zero bytes that end
/// the key; there are none when no zero byte ends the key.
pub open spec fn pl_names_of(b: Seq<u8>) -> Seq<Seq<char>> {
    let (key, found) = pl_key_scan(b.skip(6), seq![]);
    let start = 6 + key.len() + 7int;
    if found && start <= b.len() {
        pl_names_scan(b.skip(start), seq![])
    } else {
        seq![]
    }
}

/// The packet contents on which the parser does not fail outright
/// (out-of-range indices or text that is not UTF-8).
pub open spec fn contents_parsable(b: Seq<u8>) -> bool {
    &&& b.len() >= 6
    &&& has_tag(b, 0x4a, 0x4d) ==> b.len() >= 10 && valid_utf8(b.skip(10))
    &&& has_tag(b, 0x50, 0x56) ==> b.len() >= 13 && valid_utf8(b.subrange(6, b.len() - 7))
    &&& has_tag(b, 0x46, 0x52) ==> b.len() >= 8 && valid_utf8(b.skip(8))
    &&& has_tag(b, 0x5a, 0x4d) ==> b.len() >= 10
}

/// The packet that the contents of a frame (everything after the size
/// field) describe.
pub open spec fn parse_contents(b: Seq<u8>) -> Result<PacketModel, PacketError> {
    let ap = address_at(b);
    if has_tag(b, 0x4a, 0x4d) {
        Ok(PacketModel::JM { ap, json: decode_utf8(b.skip(10)) })
    } else if has_tag(b, 0x50, 0x56) {
        Ok(
            PacketModel::PV {
                ap,
                name: decode_utf8(b.subrange(6, b.len() - 7)),
                value_bits: u32_at(b, b.len() - 4),
            },
        )
    } else if has_tag(b, 0x55, 0x4d) {
        if b.len() != 8 {
            Err(PacketError::WrongUmLength)
        } else {
            Ok(PacketModel::UM { ap, udp_port: u16_at(b, 6) })
        }
    } else if has_tag(b, 0x46, 0x52) {
        Ok(
            PacketModel::FR {
                ap,
                number: u16_at(b, 6),
                query: decode_utf8(b.skip(8)),
            },
        )
    } else if has_tag(b, 0x4b, 0x41) {
        Ok(PacketModel::KA { ap })
    } else if has_tag(b, 0x5a, 0x4d) {
        Ok(PacketModel::ZM { ap, unknown: u32_at(b, 6), payload: b.skip(10) })
    } else if has_tag(b, 0x50, 0x53) {
        Ok(PacketModel::PS { ap, data: b.skip(6) })
    } else if has_tag(b, 0x50, 0x4c) {
        Ok(
            PacketModel::PL {
                ap,
                key: pl_key_scan(b.skip(6), seq![]).0,
                names: pl_names_of(b),
            },
        )
    } else {
        Err(PacketError::UnknownType(b[0], b[1]))
    }
}

pub open spec fn has_magic(s: Seq<u8>) -> bool {
    s[0] == 0x55 && s[1] == 0x43 && s[2] == 0 && s[3] == 1
}

/// The contents that reading a packet from `s` takes: as many bytes as the
/// size field asks for, or all that are left.
pub open spec fn body_of(s: Seq<u8>) -> Seq<u8> {
    let size = u16_at(s, 4) as int;
    if 6 + size <= s.len() {
        s.subrange(6, 6 + size)
    } else {
        s.skip(6)
    }
}

/// The outcome of reading one packet from the front of the byte stream `s`.
pub open spec fn read_result(s: Seq<u8>) -> Result<PacketModel, PacketError> {
    if s.len() < 6 {
        Err(PacketError::TooSmall)
    } else if !has_magic(s) {
        Err(PacketError::BadMagic)
    } else {
        parse_contents(body_of(s))
    }
}

/// The streams on which reading does not fail outright.
pub open spec fn read_parsable(s: Seq<u8>) -> bool {
    s.len() >= 6 && has_magic(s) ==> contents_parsable(body_of(s))
}

} // verus!

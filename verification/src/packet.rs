//! Writing packets to bytes and reading them back.
use vstd::prelude::*;
use vstd::slice::slice_to_vec;
use vstd::utf8::*;

use crate::types::{AddressPair, UcPacket};
use crate::wire::{
    ap_bytes, body_of, contents_parsable, encode, has_magic, le16, le32, magic, model_result,
    parse_contents, payload_bytes, pl_key_scan, pl_names_scan, pl_names_size, read_parsable,
    read_result, serializable, size_field, string_views, utf8_lines, pl_names_bytes, utf8_total_len,
    PacketError, PacketModel,
};

verus! {

// ---------------------------------------------------------------------------
// Writing
// ---------------------------------------------------------------------------
fn push_u16_le(w: &mut Vec<u8>, v: u16)
    ensures
        final(w)@ == old(w)@ + le16(v),
{
    w.push((v % 256) as u8);
    w.push((v / 256) as u8);
    assert(w@ =~= old(w)@ + le16(v));
}

fn push_u32_le(w: &mut Vec<u8>, v: u32)
    ensures
        final(w)@ == old(w)@ + le32(v),
{
    w.push((v % 256) as u8);
    w.push(((v / 256) % 256) as u8);
    w.push(((v / 65536) % 256) as u8);
    w.push((v / 16777216) as u8);
    assert(w@ =~= old(w)@ + le32(v));
}

/// Appends the bytes of `s` to `w`.
fn append_bytes(w: &mut Vec<u8>, s: &[u8])
    ensures
        final(w)@ == old(w)@ + s@,
{
    let mut i: usize = 0;
    while i < s.len()
        invariant
            i <= s@.len(),
            w@ == old(w)@ + s@.take(i as int),
        decreases s@.len() - i,
    {
        w.push(s[i]);
        i += 1;
        assert(w@ =~= old(w)@ + s@.take(i as int));
    }
    assert(s@.take(s@.len() as int) =~= s@);
}

fn write_address_pair(ap: &AddressPair, w: &mut Vec<u8>)
    ensures
        final(w)@ == old(w)@ + ap_bytes(*ap),
{
    push_u16_le(w, ap.a);
    push_u16_le(w, ap.b);
    assert(w@ =~= old(w)@ + ap_bytes(*ap));
}

proof fn lemma_utf8_total_len_prefix(ns: Seq<Seq<char>>, k: int)
    requires
        0 <= k <= ns.len(),
    ensures
        utf8_total_len(ns.take(k)) <= utf8_total_len(ns),
    decreases ns.len(),
{
    if k < ns.len() {
        assert(ns.take(k) =~= ns.drop_last().take(k));
        lemma_utf8_total_len_prefix(ns.drop_last(), k);
    } else {
        assert(ns.take(k) =~= ns);
    }
}

/// Sum of the UTF-8 lengths of `names`, plus one per name; `None` where
/// that does not fit in a `usize`.
fn names_size(names: &Vec<String>) -> (r: Option<usize>)
    ensures
        r is Some <==> pl_names_size(string_views(names@)) <= usize::MAX,
        r matches Some(n) ==> n == pl_names_size(string_views(names@)),
{
    let ghost views = string_views(names@);
    let mut total: usize = 0;
    let mut i: usize = 0;
    while i < names.len()
        invariant
            i <= names@.len(),
            views == string_views(names@),
            total == utf8_total_len(views.take(i as int)),
        decreases names@.len() - i,
    {
        let l = names[i].as_str().as_bytes().len();
        proof {
            assert(views.take(i + 1).drop_last() =~= views.take(i as int));
            assert(views.take(i + 1).last() == names@[i as int]@);
            lemma_utf8_total_len_prefix(views, i + 1);
        }
        if l > usize::MAX - total {
            assert(utf8_total_len(views.take(i + 1)) == total + l);
            return None;
        }
        total = total + l;
        i += 1;
    }
    assert(views.take(names@.len() as int) =~= views);
    if names.len() > usize::MAX - total {
        return None;
    }
    Some(total + names.len())
}

/// Appends the name list of a `PL` packet: the names separated by
/// newlines, the last one followed by a zero byte.
fn write_names(names: &Vec<String>, w: &mut Vec<u8>)
    ensures
        final(w)@ == old(w)@ + pl_names_bytes(string_views(names@)),
{
    let ghost views = string_views(names@);
    let len = names.len();
    let mut i: usize = 0;
    while i < len
        invariant
            i <= len == names@.len(),
            views == string_views(names@),
            i < len ==> w@ == old(w)@ + utf8_lines(views.take(i as int)),
            i == len && len > 0 ==> w@ == old(w)@ + pl_names_bytes(views),
            len == 0 ==> w@ == old(w)@,
        decreases len - i,
    {
        append_bytes(w, names[i].as_str().as_bytes());
        proof {
            assert(views.take(i + 1).drop_last() =~= views.take(i as int));
            assert(views.take(i + 1).last() == names@[i as int]@);
        }
        if i + 1 < len {
            w.push(0x0au8);
            assert(w@ =~= old(w)@ + utf8_lines(views.take(i + 1)));
        } else {
            w.push(0u8);
            assert(views.drop_last() =~= views.take(i as int));
            assert(w@ =~= old(w)@ + pl_names_bytes(views));
        }
        i += 1;
    }
    if len == 0 {
        assert(w@ =~= old(w)@ + pl_names_bytes(views));
    }
}

/// Appends the size field and payload of `p` to `w`.
fn write_body(p: &UcPacket, w: &mut Vec<u8>)
    requires
        serializable(p@),
    ensures
        final(w)@ == old(w)@ + le16(size_field(p@) as u16) + payload_bytes(p@),
{
    match p {
        UcPacket::JM(ap, s) => write_jm(ap, s, w),
        UcPacket::UM { ap, udp_port } => {
            push_u16_le(w, 8);
            w.push(0x55u8);
            w.push(0x4du8);
            write_address_pair(ap, w);
            push_u16_le(w, *udp_port);
            assert(w@ =~= old(w)@ + le16(size_field(p@) as u16) + payload_bytes(p@));
        },
        UcPacket::KA(ap) => {
            push_u16_le(w, 6);
            w.push(0x4bu8);
            w.push(0x41u8);
            write_address_pair(ap, w);
            assert(w@ =~= old(w)@ + le16(size_field(p@) as u16) + payload_bytes(p@));
        },
        UcPacket::PV(ap, name, val) => write_pv(ap, name, *val, w),
        UcPacket::FR(ap, some_number, buf) => write_fr(ap, *some_number, buf, w),
        UcPacket::ZM { ap, unknown, compressed_payload } => write_zm(
            ap,
            *unknown,
            compressed_payload,
            w,
        ),
        UcPacket::PS(ap, buf) => write_ps(ap, buf, w),
        UcPacket::PL(ap, name, names) => write_pl(ap, name, names, w),
    }
}

fn write_jm(ap: &AddressPair, s: &String, w: &mut Vec<u8>)
    requires
        serializable(PacketModel::JM { ap: *ap, json: s@ }),
    ensures
        ({
            let m = PacketModel::JM { ap: *ap, json: s@ };
            final(w)@ == old(w)@ + le16(size_field(m) as u16) + payload_bytes(m)
        }),
{
    let ghost m = PacketModel::JM { ap: *ap, json: s@ };
    let bytes = s.as_str().as_bytes();
    let n = bytes.len();
    // 10 bytes for the type, the address pair and the length of the text
    let size: u16 = (n + 10) as u16;
    push_u16_le(w, size);
    w.push(0x4au8);
    w.push(0x4du8);
    push_u16_le(w, ap.a);
    push_u16_le(w, ap.b);
    push_u32_le(w, n as u32);
    append_bytes(w, bytes);
    assert(w@ =~= old(w)@ + le16(size_field(m) as u16) + payload_bytes(m));
}

fn write_pv(ap: &AddressPair, name: &String, val: u32, w: &mut Vec<u8>)
    requires
        serializable(PacketModel::PV { ap: *ap, name: name@, value_bits: val }),
    ensures
        ({
            let m = PacketModel::PV { ap: *ap, name: name@, value_bits: val };
            final(w)@ == old(w)@ + le16(size_field(m) as u16) + payload_bytes(m)
        }),
{
    let ghost m = PacketModel::PV { ap: *ap, name: name@, value_bits: val };
    let bytes = name.as_str().as_bytes();
    let n = bytes.len();
    let size: u16 = ((n % 65536 + 4) % 65536) as u16;
    assert((n % 65536 + 4) % 65536 == (n + 4) % 65536) by (nonlinear_arith);
    // 7 bytes of padding and value after the name
    push_u16_le(w, size + 2 + 7);
    w.push(0x50u8);
    w.push(0x56u8);
    write_address_pair(ap, w);
    append_bytes(w, bytes);
    w.push(0u8);
    w.push(0u8);
    w.push(0u8);
    push_u32_le(w, val);
    assert(w@ =~= old(w)@ + le16(size_field(m) as u16) + payload_bytes(m));
}

fn write_fr(ap: &AddressPair, some_number: u16, buf: &String, w: &mut Vec<u8>)
    ensures
        ({
            let m = PacketModel::FR { ap: *ap, number: some_number, query: buf@ };
            final(w)@ == old(w)@ + le16(size_field(m) as u16) + payload_bytes(m)
        }),
{
    let ghost m = PacketModel::FR { ap: *ap, number: some_number, query: buf@ };
    let bytes = buf.as_str().as_bytes();
    let n = bytes.len();
    let size: u16 = ((n % 65536 + 8) % 65536) as u16;
    assert((n % 65536 + 8) % 65536 == (n + 8) % 65536) by (nonlinear_arith);
    push_u16_le(w, size);
    w.push(0x46u8);
    w.push(0x52u8);
    write_address_pair(ap, w);
    push_u16_le(w, some_number);
    append_bytes(w, bytes);
    assert(w@ =~= old(w)@ + le16(size_field(m) as u16) + payload_bytes(m));
}

fn write_zm(ap: &AddressPair, unknown: u32, compressed_payload: &Vec<u8>, w: &mut Vec<u8>)
    ensures
        ({
            let m = PacketModel::ZM { ap: *ap, unknown, payload: compressed_payload@ };
            final(w)@ == old(w)@ + le16(size_field(m) as u16) + payload_bytes(m)
        }),
{
    let ghost m = PacketModel::ZM { ap: *ap, unknown, payload: compressed_payload@ };
    let n = compressed_payload.len();
    // 10 bytes for the type, the address pair and the 32-bit field
    let size: u16 = ((n % 65536 + 10) % 65536) as u16;
    assert((n % 65536 + 10) % 65536 == (n + 10) % 65536) by (nonlinear_arith);
    push_u16_le(w, size);
    w.push(0x5au8);
    w.push(0x4du8);
    write_address_pair(ap, w);
    push_u32_le(w, unknown);
    append_bytes(w, compressed_payload.as_slice());
    assert(w@ =~= old(w)@ + le16(size_field(m) as u16) + payload_bytes(m));
}

fn write_ps(ap: &AddressPair, buf: &Vec<u8>, w: &mut Vec<u8>)
    ensures
        ({
            let m = PacketModel::PS { ap: *ap, data: buf@ };
            final(w)@ == old(w)@ + le16(size_field(m) as u16) + payload_bytes(m)
        }),
{
    let ghost m = PacketModel::PS { ap: *ap, data: buf@ };
    let n = buf.len();
    let size: u16 = ((n % 65536 + 6) % 65536) as u16;
    assert((n % 65536 + 6) % 65536 == (n + 6) % 65536) by (nonlinear_arith);
    push_u16_le(w, size);
    w.push(0x50u8);
    w.push(0x53u8);
    write_address_pair(ap, w);
    append_bytes(w, buf.as_slice());
    assert(w@ =~= old(w)@ + le16(size_field(m) as u16) + payload_bytes(m));
}

fn write_pl(ap: &AddressPair, name: &String, names: &Vec<String>, w: &mut Vec<u8>)
    requires
        serializable(PacketModel::PL { ap: *ap, key: name@, names: string_views(names@) }),
    ensures
        ({
            let m = PacketModel::PL { ap: *ap, key: name@, names: string_views(names@) };
            final(w)@ == old(w)@ + le16(size_field(m) as u16) + payload_bytes(m)
        }),
{
    let ghost m = PacketModel::PL { ap: *ap, key: name@, names: string_views(names@) };
    // each of the names, plus newlines and a 0 at the end
    let size_of_names = names_size(names).unwrap();
    let bytes = name.as_str().as_bytes();
    let n = bytes.len();
    let size: u16 = 6 + ((n % 65536) as u16) + 7 + ((size_of_names % 65536) as u16);
    push_u16_le(w, size);
    w.push(0x50u8);
    w.push(0x4cu8);
    write_address_pair(ap, w);
    append_bytes(w, bytes);
    let zeros: [u8; 7] = [0u8, 0, 0, 0, 0, 0, 0];
    append_bytes(w, zeros.as_slice());
    assert(zeros@ =~= Seq::new(7, |i: int| 0u8));
    write_names(names, w);
    assert(w@ =~= old(w)@ + le16(size_field(m) as u16) + payload_bytes(m));
}

/// Whether the size field of a `PL` packet with this key and these names
/// fits where the writer checks it.
fn pl_fits(name: &String, names: &Vec<String>) -> (r: bool)
    ensures
        r == (pl_names_size(string_views(names@)) <= usize::MAX && 13 + encode_utf8(name@).len()
            % 65536 + pl_names_size(string_views(names@)) % 65536 <= 0xffff),
{
    match names_size(names) {
        Some(size_of_names) => {
            let n = name.as_str().as_bytes().len();
            13 + n % 65536 + size_of_names % 65536 <= 0xffff
        },
        None => false,
    }
}

/// Whether [`write_packet`] accepts `p`: its size field fits where the
/// writer checks it.
pub fn is_serializable(p: &UcPacket) -> (r: bool)
    ensures
        r == serializable(p@),
{
    match p {
        UcPacket::JM(_, s) => s.as_str().as_bytes().len() <= 0xffff - 10,
        UcPacket::PV(_, name, _) => {
            let n = name.as_str().as_bytes().len();
            assert((n % 65536 + 4) % 65536 == (n + 4) % 65536) by (nonlinear_arith);
            (n % 65536 + 4) % 65536 + 9 <= 0xffff
        },
        UcPacket::PL(_, name, names) => pl_fits(name, names),
        _ => true,
    }
}

/// Appends the frame of `p` (magic, size field, payload) to `w`.
pub fn write_packet(p: &UcPacket, w: &mut Vec<u8>)
    requires
        serializable(p@),
    ensures
        final(w)@ == old(w)@ + encode(p@),
{
    w.push(0x55u8);
    w.push(0x43u8);
    w.push(0u8);
    w.push(1u8);
    assert(w@ =~= old(w)@ + magic());
    write_body(p, w);
    assert(w@ =~= old(w)@ + encode(p@));
}

/// The frame of `p` as a fresh byte vector.
pub fn ser(packet: &UcPacket) -> (out: Vec<u8>)
    requires
        serializable(packet@),
    ensures
        out@ == encode(packet@),
{
    let mut out: Vec<u8> = Vec::new();
    write_packet(packet, &mut out);
    assert(out@ =~= encode(packet@));
    out
}

// ---------------------------------------------------------------------------
// Reading
// ---------------------------------------------------------------------------
/// The text of `bytes[start..]`, which must be UTF-8.
fn utf8_tail(bytes: &[u8], start: usize) -> (r: String)
    requires
        start <= bytes@.len(),
        valid_utf8(bytes@.skip(start as int)),
    ensures
        r@ == decode_utf8(bytes@.skip(start as int)),
{
    utf8_range(bytes, start, bytes.len())
}

/// The text of `bytes[start..end]`, which must be UTF-8.
fn utf8_range(bytes: &[u8], start: usize, end: usize) -> (r: String)
    requires
        start <= end <= bytes@.len(),
        valid_utf8(bytes@.subrange(start as int, end as int)),
    ensures
        r@ == decode_utf8(bytes@.subrange(start as int, end as int)),
{
    let part = &bytes[start..end];
    assert(part@ =~= bytes@.subrange(start as int, end as int));
    std::str::from_utf8(part).unwrap().to_string()
}

/// Reads the key of a `PL` packet: Latin-1 characters from index 6 up to
/// the first zero byte.  Also tells whether a zero byte ended it, and the
/// index where the key ends.
fn scan_pl_key(bytes: &[u8]) -> (r: (String, bool, usize))
    requires
        bytes@.len() >= 6,
    ensures
        (r.0@, r.1) == pl_key_scan(bytes@.skip(6), seq![]),
        r.2 == 6 + r.0@.len() <= bytes@.len(),
{
    let mut key = String::new();
    let mut i: usize = 6;
    while i < bytes.len()
        invariant
            6 <= i <= bytes@.len(),
            key@.len() == i - 6,
            pl_key_scan(bytes@.skip(i as int), key@) == pl_key_scan(bytes@.skip(6), seq![]),
        decreases bytes@.len() - i,
    {
        assert(bytes@.skip(i as int).drop_first() =~= bytes@.skip(i + 1));
        if bytes[i] == 0x00 {
            return (key, true, i);
        } else {
            key.push(bytes[i] as char);
        }
        i += 1;
    }
    assert(bytes@.skip(i as int) =~= Seq::<u8>::empty());
    (key, false, i)
}

/// Reads the names of a `PL` packet starting at `start`: items end at a
/// newline, and a zero byte ends the list.
fn scan_pl_names(bytes: &[u8], start: usize) -> (names: Vec<String>)
    requires
        start <= bytes@.len(),
    ensures
        string_views(names@) == pl_names_scan(bytes@.skip(start as int), seq![]),
{
    let mut names: Vec<String> = Vec::new();
    let mut name = String::new();
    let mut i: usize = start;
    assert(string_views(names@) =~= Seq::<Seq<char>>::empty());
    while i < bytes.len()
        invariant
            start <= i <= bytes@.len(),
            string_views(names@) + pl_names_scan(bytes@.skip(i as int), name@) == pl_names_scan(
                bytes@.skip(start as int),
                seq![],
            ),
        decreases bytes@.len() - i,
    {
        let ghost before = string_views(names@);
        assert(bytes@.skip(i as int).drop_first() =~= bytes@.skip(i + 1));
        if bytes[i] == 0x00 {
            // end of the list
            let ghost last = name@;
            names.push(name);
            assert(string_views(names@) =~= before + seq![last]);
            return names;
        } else if bytes[i] == 0x0a {
            // newline
            let ghost last = name@;
            names.push(name);
            assert(string_views(names@) =~= before + seq![last]);
            name = String::new();
            assert(string_views(names@) + pl_names_scan(bytes@.skip(i + 1), name@) =~= before + (
            seq![last] + pl_names_scan(bytes@.skip(i + 1), seq![])));
        } else {
            name.push(bytes[i] as char);
        }
        i += 1;
    }
    assert(bytes@.skip(i as int) =~= Seq::<u8>::empty());
    assert(string_views(names@) + pl_names_scan(bytes@.skip(i as int), name@) =~= string_views(
        names@,
    ));
    names
}

/// The packet described by the contents of a frame: everything after the
/// size field.
pub fn parse_packet_contents(bytes: &Vec<u8>) -> (r: Result<UcPacket, PacketError>)
    requires
        contents_parsable(bytes@),
    ensures
        model_result(r) == parse_contents(bytes@),
{
    let b = bytes.as_slice();
    let address_pair = AddressPair {
        a: b[2] as u16 + (b[3] as u16) * 256,
        b: b[4] as u16 + (b[5] as u16) * 256,
    };
    match (b[0], b[1]) {
        (0x4a, 0x4d) => {
            // JM: the 32-bit length of the text is not used
            Ok(UcPacket::JM(address_pair, utf8_tail(b, 10)))
        },
        (0x50, 0x56) => {
            // PV: name, 3 bytes of padding, 32-bit value
            let data_len = b.len() - 7;
            let f = b.len() - 4;
            let value: u32 = b[f] as u32 + (b[f + 1] as u32) * 256 + (b[f + 2] as u32) * 65536 + (
            b[f + 3] as u32) * 16777216;
            Ok(UcPacket::PV(address_pair, utf8_range(b, 6, data_len), value))
        },
        (0x55, 0x4d) => {
            if b.len() != 8 {
                return Err(PacketError::WrongUmLength);
            }
            let udp_port: u16 = b[6] as u16 + (b[7] as u16) * 256;
            Ok(UcPacket::UM { ap: address_pair, udp_port: udp_port })
        },
        (0x46, 0x52) => {
            let some_number: u16 = b[6] as u16 + (b[7] as u16) * 256;
            Ok(UcPacket::FR(address_pair, some_number, utf8_tail(b, 8)))
        },
        (0x4b, 0x41) => { Ok(UcPacket::KA(address_pair)) },
        (0x5a, 0x4d) => {
            let unknown: u32 = b[6] as u32 + (b[7] as u32) * 256 + (b[8] as u32) * 65536 + (
            b[9] as u32) * 16777216;
            let payload = slice_to_vec(&b[10..b.len()]);
            assert(payload@ =~= bytes@.skip(10));
            Ok(UcPacket::ZM { ap: address_pair, unknown: unknown, compressed_payload: payload })
        },
        (0x50, 0x53) => {
            let data = slice_to_vec(&b[6..b.len()]);
            assert(data@ =~= bytes@.skip(6));
            Ok(UcPacket::PS(address_pair, data))
        },
        (0x50, 0x4c) => {
            // the key runs up to a zero byte; 7 zero bytes separate it
            // from the names
            let (key, found_zero, key_end) = scan_pl_key(b);
            let names = if found_zero && b.len() >= 7 && key_end <= b.len() - 7 {
                scan_pl_names(b, key_end + 7)
            } else {
                Vec::new()
            };
            proof {
                if !(found_zero && key_end + 7 <= b@.len()) {
                    assert(string_views(names@) =~= Seq::<Seq<char>>::empty());
                }
            }
            Ok(UcPacket::PL(address_pair, key, names))
        },
        _ => Err(PacketError::UnknownType(b[0], b[1])),
    }
}

/// Whether `bytes` are contents on which [`parse_packet_contents`] is defined.
pub fn contents_are_parsable(bytes: &[u8]) -> (r: bool)
    ensures
        r == contents_parsable(bytes@),
{
    if bytes.len() < 6 {
        return false;
    }
    let t0 = bytes[0];
    let t1 = bytes[1];
    if t0 == 0x4a && t1 == 0x4d {
        bytes.len() >= 10 && std::str::from_utf8(&bytes[10..bytes.len()]).is_ok()
    } else if t0 == 0x50 && t1 == 0x56 {
        bytes.len() >= 13 && std::str::from_utf8(&bytes[6..bytes.len() - 7]).is_ok()
    } else if t0 == 0x46 && t1 == 0x52 {
        bytes.len() >= 8 && std::str::from_utf8(&bytes[8..bytes.len()]).is_ok()
    } else if t0 == 0x5a && t1 == 0x4d {
        bytes.len() >= 10
    } else {
        true
    }
}

/// Checks the 6 header bytes of a frame and gives its size field.
pub fn parse_header(header: &[u8]) -> (r: Result<u16, PacketError>)
    ensures
        header@.len() < 6 ==> r == Err::<u16, PacketError>(PacketError::TooSmall),
        header@.len() >= 6 && !has_magic(header@) ==> r == Err::<u16, PacketError>(
            PacketError::BadMagic,
        ),
        header@.len() >= 6 && has_magic(header@) ==> r == Ok::<u16, PacketError>(
            (header@[4] + 256 * header@[5]) as u16,
        ),
{
    if header.len() < 6 {
        return Err(PacketError::TooSmall);
    }
    if header[0] != 0x55 || header[1] != 0x43 || header[2] != 0u8 || header[3] != 1u8 {
        return Err(PacketError::BadMagic);
    }
    let size: u16 = (header[4] as u16) + (header[5] as u16) * 256;
    Ok(size)
}

/// Reads one packet from the front of the byte stream `stream`: the header,
/// then as many bytes as the size field asks for (or all that are left).
pub fn read_packet(stream: &[u8]) -> (r: Result<UcPacket, PacketError>)
    requires
        read_parsable(stream@),
    ensures
        model_result(r) == read_result(stream@),
{
    let header_len = if stream.len() < 6 { stream.len() } else { 6 };
    let size = match parse_header(&stream[0..header_len]) {
        Ok(size) => size,
        Err(e) => {
            assert(stream@.subrange(0, header_len as int) =~= stream@.take(header_len as int));
            return Err(e);
        },
    };
    assert(stream@.subrange(0, 6) =~= stream@.take(6));
    let end = if 6 + (size as usize) <= stream.len() { 6 + (size as usize) } else { stream.len() };
    let buf = slice_to_vec(&stream[6..end]);
    assert(buf@ =~= body_of(stream@));
    parse_packet_contents(&buf)
}

/// The packet at the front of `buf`, which must be readable.
pub fn deser(buf: &Vec<u8>) -> (p: UcPacket)
    requires
        read_parsable(buf@),
        read_result(buf@) is Ok,
    ensures
        read_result(buf@) == Ok::<PacketModel, PacketError>(p@),
{
    read_packet(buf.as_slice()).unwrap()
}

} // verus!

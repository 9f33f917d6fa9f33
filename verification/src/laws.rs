//! Properties that relate writing and reading packets.
use vstd::prelude::*;
use vstd::utf8::*;


use crate::codec::{decodable, decode_rest, decode_result, frame_len, holds_frame};
use crate::types::AddressPair;
use crate::wire::{
    address_at, ap_bytes, body_of, contents_parsable, encode, le16, le32, parse_contents,
    latin1, payload_bytes, pl_key_scan, pl_names_of, pl_names_bytes, pl_names_scan, pl_names_size,
    read_parsable, read_result, serializable, size_field, tag, u16_at, u32_at, utf8_lines,
    utf8_total_len, PacketError, PacketModel,
};

verus! {

/// The packets that come back unchanged when their frame is read: those
/// whose payload fits the 16-bit size field.
///
/// `PL` text is read back as Latin-1, so its key and names must be ASCII;
/// the key must not hold a zero character and the names neither a zero
/// character nor a newline, which end them.
pub open spec fn reads_back(m: PacketModel) -> bool {
    match m {
        PacketModel::JM { json, .. } => encode_utf8(json).len() + 10 <= 0xffff,
        PacketModel::UM { .. } => true,
        PacketModel::KA { .. } => true,
        PacketModel::PV { name, .. } => encode_utf8(name).len() + 13 <= 0xffff,
        PacketModel::FR { query, .. } => encode_utf8(query).len() + 8 <= 0xffff,
        PacketModel::PS { data, .. } => data.len() + 6 <= 0xffff,
        PacketModel::ZM { payload, .. } => payload.len() + 10 <= 0xffff,
        PacketModel::PL { key, names, .. } => {
            &&& pl_key_text(key)
            &&& forall|i: int| 0 <= i < names.len() ==> #[trigger] pl_name_text(names[i])
            &&& 13 + key.len() + pl_names_size(names) <= 0xffff
        },
    }
}

/// ASCII text without the zero character.
pub open spec fn pl_key_text(s: Seq<char>) -> bool {
    &&& is_ascii_chars(s)
    &&& forall|i: int| 0 <= i < s.len() ==> #[trigger] s[i] != '\0'
}

/// ASCII text without the zero character and without newlines.
pub open spec fn pl_name_text(s: Seq<char>) -> bool {
    &&& pl_key_text(s)
    &&& forall|i: int| 0 <= i < s.len() ==> #[trigger] s[i] != '\n'
}

proof fn lemma_le16(v: u16, s: Seq<u8>, i: int)
    requires
        0 <= i,
        i + 2 <= s.len(),
        s.subrange(i, i + 2) == le16(v),
    ensures
        u16_at(s, i) == v,
{
    assert(s[i] == le16(v)[0]);
    assert(s[i + 1] == le16(v)[1]);
}

proof fn lemma_le32(v: u32, s: Seq<u8>, i: int)
    requires
        0 <= i,
        i + 4 <= s.len(),
        s.subrange(i, i + 4) == le32(v),
    ensures
        u32_at(s, i) == v,
{
    assert(s[i] == le32(v)[0]);
    assert(s[i + 1] == le32(v)[1]);
    assert(s[i + 2] == le32(v)[2]);
    assert(s[i + 3] == le32(v)[3]);
}

proof fn lemma_address(ap: AddressPair, x: u8, y: u8, rest: Seq<u8>)
    ensures
        address_at(tag(x, y) + ap_bytes(ap) + rest) == ap,
{
    let s = tag(x, y) + ap_bytes(ap) + rest;
    assert(s.subrange(2, 4) =~= le16(ap.a));
    assert(s.subrange(4, 6) =~= le16(ap.b));
    lemma_le16(ap.a, s, 2);
    lemma_le16(ap.b, s, 4);
}

pub open spec fn contents_read_back(m: PacketModel) -> bool {
    &&& contents_parsable(payload_bytes(m))
    &&& parse_contents(payload_bytes(m)) == Ok::<PacketModel, PacketError>(m)
    &&& size_field(m) == payload_bytes(m).len()
}

proof fn lemma_jm_read_back(ap: AddressPair, json: Seq<char>)
    requires
        reads_back(PacketModel::JM { ap, json }),
    ensures
        contents_read_back(PacketModel::JM { ap, json }),
{
    let b = payload_bytes(PacketModel::JM { ap, json });
    let t = encode_utf8(json);
    lemma_address(ap, 0x4a, 0x4d, le32(t.len() as u32) + t);
    assert(b =~= tag(0x4a, 0x4d) + ap_bytes(ap) + (le32(t.len() as u32) + t));
    assert(b.skip(10) =~= t);
    encode_utf8_valid_utf8(json);
    encode_utf8_decode_utf8(json);
}

proof fn lemma_um_read_back(ap: AddressPair, udp_port: u16)
    ensures
        contents_read_back(PacketModel::UM { ap, udp_port }),
{
    let b = payload_bytes(PacketModel::UM { ap, udp_port });
    lemma_address(ap, 0x55, 0x4d, le16(udp_port));
    assert(b.subrange(6, 8) =~= le16(udp_port));
    lemma_le16(udp_port, b, 6);
}

proof fn lemma_ka_read_back(ap: AddressPair)
    ensures
        contents_read_back(PacketModel::KA { ap }),
{
    let b = payload_bytes(PacketModel::KA { ap });
    lemma_address(ap, 0x4b, 0x41, seq![]);
    assert(b =~= tag(0x4b, 0x41) + ap_bytes(ap) + seq![]);
}

proof fn lemma_pv_read_back(ap: AddressPair, name: Seq<char>, value_bits: u32)
    requires
        reads_back(PacketModel::PV { ap, name, value_bits }),
    ensures
        contents_read_back(PacketModel::PV { ap, name, value_bits }),
{
    let b = payload_bytes(PacketModel::PV { ap, name, value_bits });
    let t = encode_utf8(name);
    let tail = t + seq![0u8, 0u8, 0u8] + le32(value_bits);
    lemma_address(ap, 0x50, 0x56, tail);
    assert(b =~= tag(0x50, 0x56) + ap_bytes(ap) + tail);
    assert(b.subrange(6, b.len() - 7) =~= t);
    assert(b.subrange(b.len() - 4, b.len() as int) =~= le32(value_bits));
    lemma_le32(value_bits, b, b.len() - 4);
    encode_utf8_valid_utf8(name);
    encode_utf8_decode_utf8(name);
}

proof fn lemma_fr_read_back(ap: AddressPair, number: u16, query: Seq<char>)
    requires
        reads_back(PacketModel::FR { ap, number, query }),
    ensures
        contents_read_back(PacketModel::FR { ap, number, query }),
{
    let b = payload_bytes(PacketModel::FR { ap, number, query });
    let t = encode_utf8(query);
    lemma_address(ap, 0x46, 0x52, le16(number) + t);
    assert(b =~= tag(0x46, 0x52) + ap_bytes(ap) + (le16(number) + t));
    assert(b.skip(8) =~= t);
    assert(b.subrange(6, 8) =~= le16(number));
    lemma_le16(number, b, 6);
    encode_utf8_valid_utf8(query);
    encode_utf8_decode_utf8(query);
}

proof fn lemma_zm_read_back(ap: AddressPair, unknown: u32, payload: Seq<u8>)
    requires
        reads_back(PacketModel::ZM { ap, unknown, payload }),
    ensures
        contents_read_back(PacketModel::ZM { ap, unknown, payload }),
{
    let b = payload_bytes(PacketModel::ZM { ap, unknown, payload });
    lemma_address(ap, 0x5a, 0x4d, le32(unknown) + payload);
    assert(b =~= tag(0x5a, 0x4d) + ap_bytes(ap) + (le32(unknown) + payload));
    assert(b.subrange(6, 10) =~= le32(unknown));
    lemma_le32(unknown, b, 6);
    assert(b.skip(10) =~= payload);
}

proof fn lemma_ps_read_back(ap: AddressPair, data: Seq<u8>)
    requires
        reads_back(PacketModel::PS { ap, data }),
    ensures
        contents_read_back(PacketModel::PS { ap, data }),
{
    let b = payload_bytes(PacketModel::PS { ap, data });
    lemma_address(ap, 0x50, 0x53, data);
    assert(b.skip(6) =~= data);
}

proof fn lemma_contents_read_back(m: PacketModel)
    requires
        reads_back(m),
    ensures
        contents_read_back(m),
{
    match m {
        PacketModel::JM { ap, json } => lemma_jm_read_back(ap, json),
        PacketModel::UM { ap, udp_port } => lemma_um_read_back(ap, udp_port),
        PacketModel::KA { ap } => lemma_ka_read_back(ap),
        PacketModel::PV { ap, name, value_bits } => lemma_pv_read_back(ap, name, value_bits),
        PacketModel::FR { ap, number, query } => lemma_fr_read_back(ap, number, query),
        PacketModel::PS { ap, data } => lemma_ps_read_back(ap, data),
        PacketModel::ZM { ap, unknown, payload } => lemma_zm_read_back(ap, unknown, payload),
        PacketModel::PL { ap, key, names } => lemma_pl_read_back(ap, key, names),
    }
}

proof fn lemma_ascii_bytes(s: Seq<char>)
    requires
        pl_key_text(s),
    ensures
        encode_utf8(s).len() == s.len(),
        forall|i: int| 0 <= i < s.len() ==> (#[trigger] encode_utf8(s)[i]) != 0,
        forall|i: int|
            0 <= i < s.len() && s[i] != '\n' ==> (#[trigger] encode_utf8(s)[i]) != 0x0a,
        latin1(encode_utf8(s)) == s,
{
    is_ascii_chars_encode_utf8(s);
    is_ascii_chars_nat_bound(s);
    let b = encode_utf8(s);
    assert forall|i: int| 0 <= i < s.len() implies (#[trigger] b[i]) != 0 by {
        assert(s[i] as u8 == b[i]);
        assert((s[i] as nat) < 128);
    }
    assert forall|i: int| 0 <= i < s.len() && s[i] != '\n' implies (#[trigger] b[i]) != 0x0a by {
        assert(s[i] as u8 == b[i]);
        assert((s[i] as nat) < 128);
    }
    assert forall|i: int| 0 <= i < s.len() implies #[trigger] latin1(b)[i] == s[i] by {
        assert(s[i] as u8 == b[i]);
        assert((s[i] as nat) < 128);
        char_u32_cast(s[i], s[i] as u32);
    }
    assert(latin1(b) =~= s);
}

proof fn lemma_key_scan_prefix(t: Seq<u8>, rest: Seq<u8>, acc: Seq<char>)
    requires
        forall|i: int| 0 <= i < t.len() ==> #[trigger] t[i] != 0,
    ensures
        pl_key_scan(t + rest, acc) == pl_key_scan(rest, acc + latin1(t)),
    decreases t.len(),
{
    if t.len() == 0 {
        assert(t + rest =~= rest);
        assert(acc + latin1(t) =~= acc);
    } else {
        assert((t + rest)[0] == t[0]);
        assert((t + rest).drop_first() =~= t.drop_first() + rest);
        lemma_key_scan_prefix(t.drop_first(), rest, acc.push(t[0] as char));
        assert(acc.push(t[0] as char) + latin1(t.drop_first()) =~= acc + latin1(t));
    }
}

proof fn lemma_names_scan_prefix(t: Seq<u8>, rest: Seq<u8>, cur: Seq<char>)
    requires
        forall|i: int| 0 <= i < t.len() ==> #[trigger] t[i] != 0 && t[i] != 0x0a,
    ensures
        pl_names_scan(t + rest, cur) == pl_names_scan(rest, cur + latin1(t)),
    decreases t.len(),
{
    if t.len() == 0 {
        assert(t + rest =~= rest);
        assert(cur + latin1(t) =~= cur);
    } else {
        assert((t + rest)[0] == t[0]);
        assert((t + rest).drop_first() =~= t.drop_first() + rest);
        lemma_names_scan_prefix(t.drop_first(), rest, cur.push(t[0] as char));
        assert(cur.push(t[0] as char) + latin1(t.drop_first()) =~= cur + latin1(t));
    }
}

/// Reading a name written by the `PL` writer gives the name back.
proof fn lemma_name_scan(m: Seq<char>, rest: Seq<u8>, cur: Seq<char>)
    requires
        pl_name_text(m),
    ensures
        pl_names_scan(encode_utf8(m) + rest, cur) == pl_names_scan(rest, cur + m),
{
    lemma_ascii_bytes(m);
    let b = encode_utf8(m);
    assert forall|i: int| 0 <= i < b.len() implies #[trigger] b[i] != 0 && b[i] != 0x0a by {
        assert(m[i] != '\n');
    }
    lemma_names_scan_prefix(b, rest, cur);
}

proof fn lemma_lines_scan(ms: Seq<Seq<char>>, rest: Seq<u8>)
    requires
        forall|i: int| 0 <= i < ms.len() ==> #[trigger] pl_name_text(ms[i]),
    ensures
        pl_names_scan(utf8_lines(ms) + rest, seq![]) == ms + pl_names_scan(rest, seq![]),
    decreases ms.len(),
{
    if ms.len() == 0 {
        assert(utf8_lines(ms) + rest =~= rest);
        assert(ms + pl_names_scan(rest, seq![]) =~= pl_names_scan(rest, seq![]));
    } else {
        let front = ms.drop_last();
        let m = ms.last();
        assert(pl_name_text(ms[ms.len() - 1]));
        let tail = seq![0x0au8] + rest;
        assert(utf8_lines(ms) + rest =~= utf8_lines(front) + (encode_utf8(m) + tail));
        lemma_lines_scan(front, encode_utf8(m) + tail);
        lemma_name_scan(m, tail, seq![]);
        assert(seq![] + m =~= m);
        assert(tail[0] == 0x0au8);
        assert(tail.drop_first() =~= rest);
        assert(front + (seq![m] + pl_names_scan(rest, seq![])) =~= ms + pl_names_scan(
            rest,
            seq![],
        ));
    }
}

proof fn lemma_lines_len(ms: Seq<Seq<char>>)
    ensures
        utf8_lines(ms).len() == utf8_total_len(ms) + ms.len(),
    decreases ms.len(),
{
    if ms.len() > 0 {
        lemma_lines_len(ms.drop_last());
    }
}

proof fn lemma_pl_key_read_back(key: Seq<char>, rest: Seq<u8>)
    requires
        pl_key_text(key),
        rest.len() > 0,
        rest[0] == 0,
    ensures
        pl_key_scan(encode_utf8(key) + rest, seq![]) == (key, true),
{
    let kb = encode_utf8(key);
    lemma_ascii_bytes(key);
    lemma_key_scan_prefix(kb, rest, seq![]);
    assert(seq![] + latin1(kb) =~= key);
}

proof fn lemma_pl_names_read_back(names: Seq<Seq<char>>)
    requires
        forall|i: int| 0 <= i < names.len() ==> #[trigger] pl_name_text(names[i]),
    ensures
        pl_names_scan(pl_names_bytes(names), seq![]) == names,
        pl_names_bytes(names).len() == pl_names_size(names),
{
    let nb = pl_names_bytes(names);
    if names.len() > 0 {
        let front = names.drop_last();
        assert forall|i: int| 0 <= i < front.len() implies #[trigger] pl_name_text(front[i]) by {
            assert(pl_name_text(names[i]));
        }
        assert(pl_name_text(names[names.len() - 1]));
        lemma_lines_scan(front, encode_utf8(names.last()) + seq![0u8]);
        lemma_name_scan(names.last(), seq![0u8], seq![]);
        assert(nb =~= utf8_lines(front) + (encode_utf8(names.last()) + seq![0u8]));
        assert(seq![] + names.last() =~= names.last());
        assert(front + seq![names.last()] =~= names);
        lemma_lines_len(front);
    }
    assert(pl_names_scan(nb, seq![]) =~= names);
}

proof fn lemma_pl_layout(ap: AddressPair, key: Seq<char>, names: Seq<Seq<char>>)
    requires
        encode_utf8(key).len() == key.len(),
    ensures
        ({
            let b = payload_bytes(PacketModel::PL { ap, key, names });
            let rest = Seq::new(7, |i: int| 0u8) + pl_names_bytes(names);
            &&& b[0] == 0x50 && b[1] == 0x4c
            &&& address_at(b) == ap
            &&& b.skip(6) == encode_utf8(key) + rest
            &&& rest.len() > 0 && rest[0] == 0
            &&& b.skip(6 + key.len() + 7int) == pl_names_bytes(names)
            &&& b.len() == 13 + key.len() + pl_names_bytes(names).len()
        }),
{
    let b = payload_bytes(PacketModel::PL { ap, key, names });
    let kb = encode_utf8(key);
    let zeros = Seq::new(7, |i: int| 0u8);
    let nb = pl_names_bytes(names);
    lemma_address(ap, 0x50, 0x4c, kb + zeros + nb);
    assert(b =~= tag(0x50, 0x4c) + ap_bytes(ap) + (kb + zeros + nb));
    assert(b.skip(6) =~= kb + (zeros + nb));
    assert((zeros + nb)[0] == 0);
    assert(b.skip(6 + key.len() + 7int) =~= nb);
}

proof fn lemma_pl_read_back(ap: AddressPair, key: Seq<char>, names: Seq<Seq<char>>)
    requires
        reads_back(PacketModel::PL { ap, key, names }),
    ensures
        contents_read_back(PacketModel::PL { ap, key, names }),
{
    let m = PacketModel::PL { ap, key, names };
    let b = payload_bytes(m);
    let rest = Seq::new(7, |i: int| 0u8) + pl_names_bytes(names);
    lemma_ascii_bytes(key);
    lemma_pl_layout(ap, key, names);
    lemma_pl_key_read_back(key, rest);
    lemma_pl_names_read_back(names);
    assert(pl_names_of(b) == names);
    assert(parse_contents(b) == Ok::<PacketModel, PacketError>(m));
}

/// The size field of a written frame counts exactly the bytes that follow
/// it, whenever that count fits in 16 bits.
pub proof fn lemma_size_field_counts_payload(m: PacketModel)
    requires
        serializable(m),
        payload_bytes(m).len() <= 0xffff,
    ensures
        size_field(m) == payload_bytes(m).len(),
        encode(m).len() == 6 + size_field(m),
{
    match m {
        PacketModel::PL { names, .. } => {
            if names.len() > 0 {
                lemma_lines_len(names.drop_last());
            }
            assert(pl_names_bytes(names).len() == pl_names_size(names));
        },
        _ => {},
    }
}

/// Reading the front of a stream that starts with the frame of `m`, of a
/// packet that reads back, gives `m`, whatever bytes follow the frame.
pub proof fn lemma_read_after_write(m: PacketModel, rest: Seq<u8>)
    requires
        serializable(m),
        reads_back(m),
    ensures
        read_parsable(encode(m) + rest),
        read_result(encode(m) + rest) == Ok::<PacketModel, PacketError>(m),
{
    let s = encode(m) + rest;
    let p = payload_bytes(m);
    lemma_contents_read_back(m);
    assert(s.subrange(4, 6) =~= le16(size_field(m) as u16));
    lemma_le16(size_field(m) as u16, s, 4);
    assert(s.subrange(6, 6 + p.len() as int) =~= p);
    assert(body_of(s) == p);
}

/// A buffer that starts with the frame of a packet that reads back decodes
/// to that packet, and decoding leaves exactly the bytes that follow it.
pub proof fn lemma_decode_after_encode(m: PacketModel, rest: Seq<u8>)
    requires
        serializable(m),
        reads_back(m),
    ensures
        decodable(encode(m) + rest),
        decode_result(encode(m) + rest) == Ok::<Option<PacketModel>, PacketError>(Some(m)),
        decode_rest(encode(m) + rest) == rest,
{
    let s = encode(m) + rest;
    let p = payload_bytes(m);
    lemma_contents_read_back(m);
    assert(s.subrange(4, 6) =~= le16(size_field(m) as u16));
    lemma_le16(size_field(m) as u16, s, 4);
    assert(s.subrange(6, 6 + p.len() as int) =~= p);
    assert(s.skip(6 + p.len() as int) =~= rest);
}

/// A buffer that holds only the first `k` bytes of the frame of a packet
/// that reads back decodes to nothing and is left as it is.
pub proof fn lemma_partial_frame_waits(m: PacketModel, k: int)
    requires
        serializable(m),
        reads_back(m),
        0 <= k < encode(m).len(),
    ensures
        decodable(encode(m).take(k)),
        decode_result(encode(m).take(k)) == Ok::<Option<PacketModel>, PacketError>(None),
        decode_rest(encode(m).take(k)) == encode(m).take(k),
{
    let s = encode(m).take(k);
    lemma_contents_read_back(m);
    if k >= 6 {
        assert(s.subrange(4, 6) =~= le16(size_field(m) as u16));
        lemma_le16(size_field(m) as u16, s, 4);
    }
}

/// On a buffer that holds a whole frame, decoding gives the packet that
/// reading the stream gives, and it is defined exactly where reading is.
pub proof fn lemma_decode_agrees_with_read(c: Seq<u8>)
    requires
        holds_frame(c),
    ensures
        decodable(c) == read_parsable(c),
        decode_result(c) == match read_result(c) {
            Ok(m) => Ok::<Option<PacketModel>, PacketError>(Some(m)),
            Err(e) => Err(e),
        },
{
    assert(body_of(c) == c.subrange(6, frame_len(c)));
}

/// Once a buffer holds a whole frame, bytes that arrive after it change
/// neither what decoding or reading the front of the stream yields nor,
/// apart from those bytes, what decoding leaves behind.
pub proof fn lemma_later_bytes_do_not_matter(c: Seq<u8>, extra: Seq<u8>)
    requires
        holds_frame(c),
    ensures
        holds_frame(c + extra),
        decodable(c + extra) == decodable(c),
        decode_result(c + extra) == decode_result(c),
        decode_rest(c + extra) == decode_rest(c) + extra,
        read_parsable(c + extra) == read_parsable(c),
        read_result(c + extra) == read_result(c),
{
    let d = c + extra;
    assert(d.subrange(0, 6) == c.subrange(0, 6));
    assert(d[0] == c[0] && d[1] == c[1] && d[2] == c[2] && d[3] == c[3]);
    assert(d[4] == c[4] && d[5] == c[5]);
    assert(d.subrange(6, frame_len(c)) =~= c.subrange(6, frame_len(c)));
    assert(d.skip(frame_len(c)) =~= c.skip(frame_len(c)) + extra);
}

} // verus!

//! The byte layout of frames, field by field, for what the writer produces
//! and for what the reader and the codec take from bytes.
use vstd::prelude::*;
use vstd::utf8::*;

use crate::types::AddressPair;
use crate::codec::{decodable, decode_rest, decode_result};
use crate::semantic::{inflate_limited, zm_text, ZM_OUTPUT_LIMIT};
use crate::wire::{
    address_at, contents_parsable, encode, parse_contents, pl_key_scan, pl_names_bytes,
    pl_names_of, pl_names_scan, pl_names_size, read_parsable, read_result, serializable, utf8_lines,
    utf8_total_len, PacketError, PacketModel,
};

verus! {

/// Every frame starts with the magic `U C 0x00 0x01`, then the size field,
/// the two type letters and the address pair, all integers little-endian.
pub open spec fn frame_head(f: Seq<u8>, size: int, x: u8, y: u8, ap: AddressPair) -> bool {
    &&& f.len() >= 12
    &&& f[0] == 0x55 && f[1] == 0x43 && f[2] == 0 && f[3] == 1
    &&& f[4] + 256 * f[5] == size
    &&& f[6] == x && f[7] == y
    &&& f[8] + 256 * f[9] == ap.a
    &&& f[10] + 256 * f[11] == ap.b
}

/// The frame of a `JM` packet: the header, the UTF-8 byte length of the
/// text as a little-endian 32-bit number, then the text.
pub proof fn lemma_jm_layout(ap: AddressPair, json: Seq<char>)
    requires
        serializable(PacketModel::JM { ap, json }),
    ensures
        ({
            let f = encode(PacketModel::JM { ap, json });
            let n = encode_utf8(json).len() as int;
            &&& frame_head(f, n + 10, 0x4a, 0x4d, ap)
            &&& f.len() == 16 + n
            &&& f[12] + 256 * f[13] + 65536 * f[14] + 16777216 * f[15] == n
            &&& f.skip(16) == encode_utf8(json)
        }),
{
    let f = encode(PacketModel::JM { ap, json });
    assert(f.skip(16) =~= encode_utf8(json));
}

/// The frame of a `UM` packet: the header, then the UDP port.
pub proof fn lemma_um_layout(ap: AddressPair, udp_port: u16)
    ensures
        ({
            let f = encode(PacketModel::UM { ap, udp_port });
            &&& frame_head(f, 8, 0x55, 0x4d, ap)
            &&& f.len() == 14
            &&& f[12] + 256 * f[13] == udp_port
        }),
{
}

/// The frame of a `KA` packet: the header alone.
pub proof fn lemma_ka_layout(ap: AddressPair)
    ensures
        ({
            let f = encode(PacketModel::KA { ap });
            &&& frame_head(f, 6, 0x4b, 0x41, ap)
            &&& f.len() == 12
        }),
{
}

/// The frame of a `PV` packet: the header, the name, three zero bytes and
/// the 32-bit value.
pub proof fn lemma_pv_layout(ap: AddressPair, name: Seq<char>, value_bits: u32)
    requires
        serializable(PacketModel::PV { ap, name, value_bits }),
    ensures
        ({
            let f = encode(PacketModel::PV { ap, name, value_bits });
            let n = encode_utf8(name).len() as int;
            &&& frame_head(f, (n + 13) % 65536, 0x50, 0x56, ap)
            &&& f.len() == 19 + n
            &&& f.subrange(12, 12 + n) == encode_utf8(name)
            &&& f[12 + n] == 0 && f[13 + n] == 0 && f[14 + n] == 0
            &&& f[15 + n] + 256 * f[16 + n] + 65536 * f[17 + n] + 16777216 * f[18 + n] == value_bits
        }),
{
    let f = encode(PacketModel::PV { ap, name, value_bits });
    let n = encode_utf8(name).len() as int;
    assert(f.subrange(12, 12 + n) =~= encode_utf8(name));
    assert((n + 4) % 65536 + 9 == (n + 13) % 65536);
}

/// The frame of an `FR` packet: the header, the 16-bit number, the query.
pub proof fn lemma_fr_layout(ap: AddressPair, number: u16, query: Seq<char>)
    ensures
        ({
            let f = encode(PacketModel::FR { ap, number, query });
            let n = encode_utf8(query).len() as int;
            &&& frame_head(f, (n + 8) % 65536, 0x46, 0x52, ap)
            &&& f.len() == 14 + n
            &&& f[12] + 256 * f[13] == number
            &&& f.skip(14) == encode_utf8(query)
        }),
    {
    let f = encode(PacketModel::FR { ap, number, query });
    assert(f.skip(14) =~= encode_utf8(query));
}

/// The frame of a `ZM` packet: the header, the 32-bit field, the payload.
pub proof fn lemma_zm_layout(ap: AddressPair, unknown: u32, payload: Seq<u8>)
    ensures
        ({
            let f = encode(PacketModel::ZM { ap, unknown, payload });
            &&& frame_head(f, (payload.len() + 10) as int % 65536, 0x5a, 0x4d, ap)
            &&& f.len() == 16 + payload.len()
            &&& f[12] + 256 * f[13] + 65536 * f[14] + 16777216 * f[15] == unknown
            &&& f.skip(16) == payload
        }),
{
    let f = encode(PacketModel::ZM { ap, unknown, payload });
    assert(f.skip(16) =~= payload);
}

/// The frame of a `PS` packet: the header, then the data as it is.
pub proof fn lemma_ps_layout(ap: AddressPair, data: Seq<u8>)
    ensures
        ({
            let f = encode(PacketModel::PS { ap, data });
            &&& frame_head(f, (data.len() + 6) as int % 65536, 0x50, 0x53, ap)
            &&& f.len() == 12 + data.len()
            &&& f.skip(12) == data
        }),
{
    let f = encode(PacketModel::PS { ap, data });
    assert(f.skip(12) =~= data);
}

/// The frame of a `PL` packet: the header, the key, seven zero bytes and
/// the name list.
pub proof fn lemma_pl_layout(ap: AddressPair, key: Seq<char>, names: Seq<Seq<char>>)
    requires
        serializable(PacketModel::PL { ap, key, names }),
    ensures
        ({
            let f = encode(PacketModel::PL { ap, key, names });
            let k = encode_utf8(key).len() as int;
            &&& frame_head(f, 13 + k % 65536 + pl_names_size(names) % 65536, 0x50, 0x4c, ap)
            &&& f.subrange(12, 12 + k) == encode_utf8(key)
            &&& forall|i: int| 12 + k <= i < 19 + k ==> f[i] == 0
            &&& f.skip(19 + k) == pl_names_bytes(names)
        }),
{
    let f = encode(PacketModel::PL { ap, key, names });
    let k = encode_utf8(key).len() as int;
    assert(f.subrange(12, 12 + k) =~= encode_utf8(key));
    assert(f.skip(19 + k) =~= pl_names_bytes(names));
}

proof fn lemma_lines_front(ms: Seq<Seq<char>>)
    requires
        ms.len() > 0,
    ensures
        utf8_lines(ms) == encode_utf8(ms[0]) + seq![0x0au8] + utf8_lines(ms.drop_first()),
    decreases ms.len(),
{
    if ms.len() > 1 {
        lemma_lines_front(ms.drop_last());
        assert(ms.drop_last().drop_first() =~= ms.drop_first().drop_last());
        assert(ms.drop_last()[0] == ms[0]);
        assert(ms.drop_first().last() == ms.last());
        assert(utf8_lines(ms) =~= encode_utf8(ms[0]) + seq![0x0au8] + utf8_lines(
            ms.drop_first(),
        ));
    } else {
        assert(ms.drop_last() =~= Seq::<Seq<char>>::empty());
        assert(ms.drop_first() =~= Seq::<Seq<char>>::empty());
        assert(utf8_lines(ms) =~= encode_utf8(ms[0]) + seq![0x0au8] + utf8_lines(
            ms.drop_first(),
        ));
    }
}

/// The name list of a `PL` packet, from the front: the first name, then a
/// newline and the rest of the list, or a zero byte after the last name.
pub proof fn lemma_pl_names_layout(ns: Seq<Seq<char>>)
    ensures
        ns.len() == 0 ==> pl_names_bytes(ns) == Seq::<u8>::empty(),
        ns.len() == 1 ==> pl_names_bytes(ns) == encode_utf8(ns[0]) + seq![0u8],
        ns.len() > 1 ==> pl_names_bytes(ns) == encode_utf8(ns[0]) + seq![0x0au8]
            + pl_names_bytes(ns.drop_first()),
        pl_names_bytes(ns).len() == utf8_total_len(ns) + ns.len(),
    decreases ns.len(),
{
    if ns.len() == 1 {
        assert(ns.drop_last() =~= Seq::<Seq<char>>::empty());
        assert(pl_names_bytes(ns) =~= encode_utf8(ns[0]) + seq![0u8]);
    } else if ns.len() > 1 {
        let front = ns.drop_last();
        lemma_lines_front(front);
        assert(front.drop_first() =~= ns.drop_first().drop_last());
        assert(ns.drop_first().last() == ns.last());
        assert(pl_names_bytes(ns) =~= encode_utf8(ns[0]) + seq![0x0au8] + pl_names_bytes(
            ns.drop_first(),
        ));
    }
    if ns.len() > 0 {
        lemma_lines_len(ns.drop_last());
    }
}

proof fn lemma_lines_len(ms: Seq<Seq<char>>)
    ensures
        utf8_lines(ms).len() == utf8_total_len(ms) + ms.len(),
    decreases ms.len(),
{
    if ms.len() > 0 {
        lemma_lines_len(ms.drop_last());
    }
}

/// Only the size checks of the writer refuse a packet: `UM`, `KA`, `FR`,
/// `ZM` and `PS` packets are always written; a `JM` text must leave room for
/// its 10 header bytes, a `PV` size must not overflow 16 bits when the 9
/// bytes after the name are added, and a `PL` size must not overflow where
/// its parts are added up.
pub proof fn lemma_serializable_exactly(m: PacketModel)
    ensures
        match m {
            PacketModel::JM { json, .. } => serializable(m) == (encode_utf8(json).len() + 10
                <= 0xffff),
            PacketModel::PV { name, .. } => serializable(m) == ((encode_utf8(name).len() + 4)
                % 65536 + 9 <= 0xffff),
            PacketModel::PL { key, names, .. } => serializable(m) == (utf8_total_len(names)
                + names.len() <= usize::MAX && 13 + encode_utf8(key).len() % 65536 + (
            utf8_total_len(names) + names.len()) % 65536 <= 0xffff),
            _ => serializable(m),
        },
{
}

// ---------------------------------------------------------------------------
// Reading
// ---------------------------------------------------------------------------
/// The address pair of packet contents is the little-endian pair of 16-bit
/// numbers at indices 2 to 5.
pub open spec fn address_of(b: Seq<u8>) -> AddressPair {
    AddressPair { a: (b[2] + 256 * b[3]) as u16, b: (b[4] + 256 * b[5]) as u16 }
}

/// What each kind of packet contents is read as: the fields at their
/// places, integers little-endian, text as the UTF-8 text of its bytes.
pub proof fn lemma_contents_fields(b: Seq<u8>)
    requires
        contents_parsable(b),
    ensures
        address_at(b) == address_of(b),
        b[0] == 0x4a && b[1] == 0x4d ==> (parse_contents(b) matches Ok(PacketModel::JM { ap, json })
            && ap == address_of(b) && encode_utf8(json) == b.skip(10)),
        b[0] == 0x55 && b[1] == 0x4d && b.len() == 8 ==> parse_contents(b) == Ok::<
            PacketModel,
            PacketError,
        >(PacketModel::UM { ap: address_of(b), udp_port: (b[6] + 256 * b[7]) as u16 }),
        b[0] == 0x55 && b[1] == 0x4d && b.len() != 8 ==> parse_contents(b) == Err::<
            PacketModel,
            PacketError,
        >(PacketError::WrongUmLength),
        b[0] == 0x4b && b[1] == 0x41 ==> parse_contents(b) == Ok::<PacketModel, PacketError>(
            PacketModel::KA { ap: address_of(b) },
        ),
        b[0] == 0x50 && b[1] == 0x56 ==> (parse_contents(b) matches Ok(
            PacketModel::PV { ap, name, value_bits },
        ) && ap == address_of(b) && encode_utf8(name) == b.subrange(6, b.len() - 7) && value_bits
            == b[b.len() - 4] + 256 * b[b.len() - 3] + 65536 * b[b.len() - 2] + 16777216 * b[b.len()
            - 1]),
        b[0] == 0x46 && b[1] == 0x52 ==> (parse_contents(b) matches Ok(
            PacketModel::FR { ap, number, query },
        ) && ap == address_of(b) && number == b[6] + 256 * b[7] && encode_utf8(query) == b.skip(
            8,
        )),
        b[0] == 0x5a && b[1] == 0x4d ==> parse_contents(b) == Ok::<PacketModel, PacketError>(
            PacketModel::ZM {
                ap: address_of(b),
                unknown: (b[6] + 256 * b[7] + 65536 * b[8] + 16777216 * b[9]) as u32,
                payload: b.skip(10),
            },
        ),
        b[0] == 0x50 && b[1] == 0x53 ==> parse_contents(b) == Ok::<PacketModel, PacketError>(
            PacketModel::PS { ap: address_of(b), data: b.skip(6) },
        ),
        b[0] == 0x50 && b[1] == 0x4c ==> parse_contents(b) == Ok::<PacketModel, PacketError>(
            PacketModel::PL {
                ap: address_of(b),
                key: pl_key_scan(b.skip(6), seq![]).0,
                names: pl_names_of(b),
            },
        ),
        !(b[0] == 0x4a && b[1] == 0x4d) && !(b[0] == 0x55 && b[1] == 0x4d) && !(b[0] == 0x4b
            && b[1] == 0x41) && !(b[0] == 0x50 && b[1] == 0x56) && !(b[0] == 0x46 && b[1] == 0x52)
            && !(b[0] == 0x5a && b[1] == 0x4d) && !(b[0] == 0x50 && b[1] == 0x53) && !(b[0] == 0x50
            && b[1] == 0x4c) ==> parse_contents(b) == Err::<PacketModel, PacketError>(
            PacketError::UnknownType(b[0], b[1]),
        ),
{
    if b[0] == 0x4a && b[1] == 0x4d {
        decode_utf8_encode_utf8(b.skip(10));
    }
    if b[0] == 0x50 && b[1] == 0x56 {
        decode_utf8_encode_utf8(b.subrange(6, b.len() - 7));
    }
    if b[0] == 0x46 && b[1] == 0x52 {
        decode_utf8_encode_utf8(b.skip(8));
    }
}

proof fn lemma_key_scan_fields(s: Seq<u8>, acc: Seq<char>)
    ensures
        ({
            let (k, found) = pl_key_scan(s, acc);
            let m = k.len() - acc.len();
            &&& 0 <= m <= s.len()
            &&& k.take(acc.len() as int) == acc
            &&& forall|i: int| 0 <= i < m ==> #[trigger] s[i] != 0
            &&& forall|i: int| 0 <= i < m ==> #[trigger] k[acc.len() + i] == s[i] as char
            &&& found ==> m < s.len() && s[m] == 0
            &&& !found ==> m == s.len()
        }),
    decreases s.len(),
{
    let (k, found) = pl_key_scan(s, acc);
    if s.len() > 0 && s[0] != 0 {
        let acc2 = acc.push(s[0] as char);
        let t = s.drop_first();
        lemma_key_scan_fields(t, acc2);
        assert(pl_key_scan(s, acc) == pl_key_scan(t, acc2));
        let m2 = k.len() - acc2.len();
        assert(0 <= m2 <= t.len());
        assert(k.take(acc2.len() as int) == acc2);
        assert(k.take(acc.len() as int) =~= acc2.take(acc.len() as int));
        assert(acc2.take(acc.len() as int) =~= acc);
        assert forall|i: int| 0 <= i < k.len() - acc.len() implies #[trigger] s[i] != 0 by {
            if i > 0 {
                assert(t[i - 1] == s[i]);
                assert(t[i - 1] != 0);
            }
        }
        assert forall|i: int| 0 <= i < k.len() - acc.len() implies #[trigger] k[acc.len() + i]
            == s[i] as char by {
            if i > 0 {
                assert(t[i - 1] == s[i]);
                assert(k[acc2.len() + (i - 1)] == t[i - 1] as char);
            } else {
                assert(k.take(acc2.len() as int)[acc.len() as int] == k[acc.len() as int]);
                assert(acc2[acc.len() as int] == s[0] as char);
            }
        }
        if found {
            assert(t[m2] == s[m2 + 1]);
        }
    } else {
        assert(acc.take(acc.len() as int) =~= acc);
    }
}

/// The key of a `PL` packet is the run of bytes from index 6 up to the
/// first zero byte, or to the end, each read as the character of that
/// code; the name list starts 7 bytes after that zero byte.
pub proof fn lemma_pl_key_fields(b: Seq<u8>)
    requires
        b.len() >= 6,
    ensures
        ({
            let (key, found) = pl_key_scan(b.skip(6), seq![]);
            &&& 6 + key.len() <= b.len()
            &&& forall|i: int| 0 <= i < key.len() ==> #[trigger] b[6 + i] != 0
            &&& forall|i: int| 0 <= i < key.len() ==> #[trigger] key[i] == b[6 + i] as char
            &&& found ==> 6 + key.len() < b.len() && b[6 + key.len() as int] == 0
            &&& !found ==> 6 + key.len() == b.len()
            &&& pl_names_of(b) == if found && 13 + key.len() <= b.len() {
                pl_names_scan(b.skip(13 + key.len() as int), seq![])
            } else {
                Seq::<Seq<char>>::empty()
            }
        }),
{
    lemma_key_scan_fields(b.skip(6), seq![]);
    let (key, found) = pl_key_scan(b.skip(6), seq![]);
    assert forall|i: int| 0 <= i < key.len() implies #[trigger] b[6 + i] != 0 by {
        assert(b.skip(6)[i] == b[6 + i]);
        assert(b.skip(6)[i] != 0);
    }
    assert forall|i: int| 0 <= i < key.len() implies #[trigger] key[i] == b[6 + i] as char by {
        assert(b.skip(6)[i] == b[6 + i]);
        assert(key[0 + i] == b.skip(6)[i] as char);
    }
    if found {
        assert(b.skip(6)[key.len() as int] == b[6 + key.len() as int]);
    }
}

/// The name list of a `PL` packet is split at newline bytes, each byte of a
/// name read as the character of that code; a zero byte ends the list, and
/// so does the end of the bytes, which drops an unfinished name.
pub proof fn lemma_pl_names_scan_fields(s: Seq<u8>, cur: Seq<char>)
    ensures
        s.len() == 0 ==> pl_names_scan(s, cur) == Seq::<Seq<char>>::empty(),
        s.len() > 0 && s[0] == 0 ==> pl_names_scan(s, cur) == seq![cur],
        s.len() > 0 && s[0] == 0x0a ==> pl_names_scan(s, cur) == seq![cur] + pl_names_scan(
            s.drop_first(),
            seq![],
        ),
        s.len() > 0 && s[0] != 0 && s[0] != 0x0a ==> pl_names_scan(s, cur) == pl_names_scan(
            s.drop_first(),
            cur.push(s[0] as char),
        ),
{
}

/// Decoding a buffer: nothing until the header and then the whole frame
/// that its size field announces have arrived; a bad header is an error;
/// a whole frame is removed from the buffer, whatever its contents give,
/// and its contents are read as the packet.
pub proof fn lemma_decode_steps(c: Seq<u8>)
    ensures
        c.len() < 6 ==> decode_result(c) == Ok::<Option<PacketModel>, PacketError>(None)
            && decode_rest(c) == c && decodable(c),
        c.len() >= 6 && !(c[0] == 0x55 && c[1] == 0x43 && c[2] == 0 && c[3] == 1)
            ==> decode_result(c) == Err::<Option<PacketModel>, PacketError>(PacketError::BadMagic)
            && decode_rest(c) == c && decodable(c),
        c.len() >= 6 && (c[0] == 0x55 && c[1] == 0x43 && c[2] == 0 && c[3] == 1) && c.len() < 6
            + c[4] + 256 * c[5] ==> decode_result(c) == Ok::<Option<PacketModel>, PacketError>(None)
            && decode_rest(c) == c && decodable(c),
        c.len() >= 6 && (c[0] == 0x55 && c[1] == 0x43 && c[2] == 0 && c[3] == 1) && c.len() >= 6
            + c[4] + 256 * c[5] ==> {
            let end = 6 + c[4] + 256 * c[5];
            &&& decodable(c) == contents_parsable(c.subrange(6, end))
            &&& decode_rest(c) == c.skip(end)
            &&& decode_result(c) == match parse_contents(c.subrange(6, end)) {
                Ok(m) => Ok::<Option<PacketModel>, PacketError>(Some(m)),
                Err(e) => Err(e),
            }
        },
{
}

/// Reading a packet from the front of a stream: an error when fewer than 6
/// bytes or a bad header come first, else the contents are the bytes that
/// the size field announces, or as many as there are.
pub proof fn lemma_read_steps(s: Seq<u8>)
    ensures
        s.len() < 6 ==> read_result(s) == Err::<PacketModel, PacketError>(PacketError::TooSmall),
        s.len() >= 6 && !(s[0] == 0x55 && s[1] == 0x43 && s[2] == 0 && s[3] == 1)
            ==> read_result(s) == Err::<PacketModel, PacketError>(PacketError::BadMagic),
        s.len() < 6 || !(s[0] == 0x55 && s[1] == 0x43 && s[2] == 0 && s[3] == 1) ==> read_parsable(
            s,
        ),
        s.len() >= 6 && (s[0] == 0x55 && s[1] == 0x43 && s[2] == 0 && s[3] == 1) ==> {
            let end = 6 + s[4] + 256 * s[5];
            &&& read_parsable(s) == contents_parsable(
                if end <= s.len() {
                    s.subrange(6, end)
                } else {
                    s.skip(6)
                },
            )
            &&& read_result(s) == parse_contents(
                if end <= s.len() {
                    s.subrange(6, end)
                } else {
                    s.skip(6)
                },
            )
        },
{
}

/// The reader is defined on all contents of at least 6 bytes except where
/// a field it reads is missing or its text is not UTF-8: a `JM` text from
/// index 10, a `PV` name between index 6 and the 7 bytes at the end, an
/// `FR` query from index 8, and the 32-bit field of a `ZM` packet.
pub proof fn lemma_parsable_exactly(b: Seq<u8>)
    ensures
        contents_parsable(b) == (b.len() >= 6 && (b[0] == 0x4a && b[1] == 0x4d ==> b.len() >= 10
            && valid_utf8(b.skip(10))) && (b[0] == 0x50 && b[1] == 0x56 ==> b.len() >= 13
            && valid_utf8(b.subrange(6, b.len() - 7))) && (b[0] == 0x46 && b[1] == 0x52 ==> b.len()
            >= 8 && valid_utf8(b.skip(8))) && (b[0] == 0x5a && b[1] == 0x4d ==> b.len() >= 10)),
{
}

/// The text of a `ZM` payload is there exactly when the payload has its
/// 2-byte header and the rest inflates, within the limit, to well-formed
/// UTF-8; its UTF-8 bytes are then the inflated bytes.
pub proof fn lemma_zm_text(data: Seq<u8>)
    ensures
        zm_text(data) is Some <==> data.len() >= 2 && (inflate_limited(
            data.skip(2),
            ZM_OUTPUT_LIMIT,
        ) matches Some(out) && valid_utf8(out)),
        zm_text(data) matches Some(t) ==> inflate_limited(data.skip(2), ZM_OUTPUT_LIMIT) == Some(
            encode_utf8(t),
        ),
{
    if data.len() >= 2 {
        if let Some(out) = inflate_limited(data.skip(2), ZM_OUTPUT_LIMIT) {
            if valid_utf8(out) {
                decode_utf8_encode_utf8(out);
            }
        }
    }
}

} // verus!

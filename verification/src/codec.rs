//! Framing of packets in a growing receive buffer, as a stream codec does it.
use bytes::{Buf, BytesMut};
use vstd::prelude::*;
use vstd::slice::slice_to_vec;

use crate::packet::{contents_are_parsable, is_serializable, parse_packet_contents, ser};
use crate::types::UcPacket;
use crate::wire::{
    contents_parsable, encode, has_magic, parse_contents, serializable, u16_at,
    PacketError, PacketModel,
};

verus! {

/// `bytes::BytesMut`, held as an opaque buffer.
#[verifier::external_type_specification]
#[verifier::external_body]
pub struct ExBytesMut(bytes::BytesMut);

/// The bytes that a `BytesMut` holds, front to back.
pub uninterp spec fn bytes_mut_contents(b: BytesMut) -> Seq<u8>;

/// `<BytesMut as AsRef<[u8]>>::as_ref`: the slice of the bytes the buffer holds.
#[verifier::external_body]
fn contents_of(b: &BytesMut) -> (r: &[u8])
    ensures
        r@ == bytes_mut_contents(*b),
{
    b.as_ref()
}

/// `BytesMut::reserve`: makes room for `additional` more bytes; the contents
/// stay as they were.  It panics when the new capacity overflows; the bound
/// below covers the visible contents only, not the bytes the buffer has
/// already handed out in front of them, which count against the same limit.
#[verifier::external_body]
fn reserve_room(b: &mut BytesMut, additional: usize)
    requires
        bytes_mut_contents(*old(b)).len() + additional <= isize::MAX,
    ensures
        bytes_mut_contents(*final(b)) == bytes_mut_contents(*old(b)),
{
    b.reserve(additional)
}

/// `BytesMut::extend_from_slice`: appends the bytes of `s`.  It reserves
/// room first, with the same limit as `reserve`.
#[verifier::external_body]
fn extend_from(b: &mut BytesMut, s: &[u8])
    requires
        bytes_mut_contents(*old(b)).len() + s@.len() <= isize::MAX,
    ensures
        bytes_mut_contents(*final(b)) == bytes_mut_contents(*old(b)) + s@,
{
    b.extend_from_slice(s)
}

/// `<BytesMut as Buf>::advance`: drops the first `cnt` bytes; it panics when
/// `cnt` exceeds the number of bytes held.
#[verifier::external_body]
fn advance_past(b: &mut BytesMut, cnt: usize)
    requires
        cnt <= bytes_mut_contents(*old(b)).len(),
    ensures
        bytes_mut_contents(*final(b)) == bytes_mut_contents(*old(b)).skip(cnt as int),
{
    b.advance(cnt)
}

/// Whether the buffer `c` holds a whole frame: the header and as many bytes
/// as its size field asks for.
pub open spec fn holds_frame(c: Seq<u8>) -> bool {
    c.len() >= 6 && has_magic(c) && c.len() >= 6 + u16_at(c, 4)
}

pub open spec fn frame_len(c: Seq<u8>) -> int {
    6 + u16_at(c, 4)
}

/// What decoding the buffer `c` yields: nothing while the header or the rest
/// of the frame has not arrived, an error for a bad header, else the packet
/// that the frame's contents describe (or the error they give).
pub open spec fn decode_result(c: Seq<u8>) -> Result<Option<PacketModel>, PacketError> {
    if c.len() < 6 {
        Ok(None)
    } else if !has_magic(c) {
        Err(PacketError::BadMagic)
    } else if c.len() < frame_len(c) {
        Ok(None)
    } else {
        match parse_contents(c.subrange(6, frame_len(c))) {
            Ok(m) => Ok(Some(m)),
            Err(e) => Err(e),
        }
    }
}

/// What is left in the buffer after decoding: a whole frame is removed,
/// anything else stays.
pub open spec fn decode_rest(c: Seq<u8>) -> Seq<u8> {
    if holds_frame(c) {
        c.skip(frame_len(c))
    } else {
        c
    }
}

/// The buffers on which decoding does not fail outright.
pub open spec fn decodable(c: Seq<u8>) -> bool {
    holds_frame(c) ==> contents_parsable(c.subrange(6, frame_len(c)))
}

pub open spec fn decoded_model(r: Result<Option<UcPacket>, PacketError>) -> Result<
    Option<PacketModel>,
    PacketError,
> {
    match r {
        Ok(Some(p)) => Ok(Some(p@)),
        Ok(None) => Ok(None),
        Err(e) => Err(e),
    }
}

/// Splits a byte stream into packets.
pub struct PacketCodec {}

impl PacketCodec {
    /// Takes one packet off the front of `src` once its whole frame has
    /// arrived.
    pub fn decode(&mut self, src: &mut BytesMut) -> (r: Result<Option<UcPacket>, PacketError>)
        requires
            decodable(bytes_mut_contents(*old(src))),
        ensures
            decoded_model(r) == decode_result(bytes_mut_contents(*old(src))),
            bytes_mut_contents(*final(src)) == decode_rest(bytes_mut_contents(*old(src))),
    {
        let ghost c = bytes_mut_contents(*src);
        let s = contents_of(src);
        if s.len() < 6 {
            // not enough data to read the length marker
            return Ok(None);
        }
        // verify the header
        if s[0] != 0x55 || s[1] != 0x43 || s[2] != 0u8 || s[3] != 1u8 {
            return Err(PacketError::BadMagic);
        }
        let length: usize = (s[4] as usize) + (s[5] as usize) * 256;
        if s.len() < 6 + length {
            // the full frame has not arrived yet; make room for it
            let missing = 6 + length - s.len();
            reserve_room(src, missing);
            return Ok(None);
        }
        let data = slice_to_vec(&s[6..6 + length]);
        assert(data@ =~= c.subrange(6, frame_len(c)));
        advance_past(src, 6 + length);
        match parse_packet_contents(&data) {
            Ok(p) => Ok(Some(p)),
            Err(parse_error) => Err(parse_error),
        }
    }

    /// Whether `src` is a buffer that [`PacketCodec::decode`] is defined on.
    pub fn can_decode(&self, src: &BytesMut) -> (r: bool)
        ensures
            r == decodable(bytes_mut_contents(*src)),
    {
        let s = contents_of(src);
        if s.len() < 6 {
            return true;
        }
        if s[0] != 0x55 || s[1] != 0x43 || s[2] != 0u8 || s[3] != 1u8 {
            return true;
        }
        let length: usize = (s[4] as usize) + (s[5] as usize) * 256;
        if s.len() < 6 + length {
            return true;
        }
        let r = contents_are_parsable(&s[6..6 + length]);
        assert(s@.subrange(6, 6 + length as int) =~= bytes_mut_contents(*src).subrange(
            6,
            frame_len(bytes_mut_contents(*src)),
        ));
        r
    }

    /// Whether [`PacketCodec::encode`] accepts `packet` and `dst`: the size
    /// field of the packet fits, and the buffer can grow by its frame.
    pub fn can_encode(&self, packet: &UcPacket, dst: &BytesMut) -> (r: bool)
        ensures
            r == (serializable(packet@) && bytes_mut_contents(*dst).len() + encode(packet@).len()
                <= isize::MAX),
    {
        if !is_serializable(packet) {
            return false;
        }
        let frame = ser(packet);
        let held = contents_of(dst).len();
        let limit = isize::MAX as usize;
        held <= limit && frame.len() <= limit - held
    }

    /// Appends the frame of `packet` to `dst`.
    pub fn encode(&mut self, packet: UcPacket, dst: &mut BytesMut)
        requires
            serializable(packet@),
            bytes_mut_contents(*old(dst)).len() + encode(packet@).len() <= isize::MAX,
        ensures
            bytes_mut_contents(*final(dst)) == bytes_mut_contents(*old(dst)) + encode(packet@),
    {
        let buf = ser(&packet);
        reserve_room(dst, buf.len());
        extend_from(dst, buf.as_slice());
    }
}

} // verus!

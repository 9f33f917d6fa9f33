//! Reading the compressed payload of `ZM` packets.
use miniz_oxide::inflate::{decompress_to_vec_with_limit, DecompressError};
use vstd::prelude::*;
use vstd::utf8::{decode_utf8, decode_utf8_encode_utf8, encode_utf8, valid_utf8};

verus! {

/// The largest decompressed payload that is accepted.
pub const ZM_OUTPUT_LIMIT: usize = 600000;

/// `miniz_oxide::inflate::DecompressError`, carried through without being
/// inspected.
#[verifier::external_type_specification]
#[verifier::external_body]
pub struct ExDecompressError(miniz_oxide::inflate::DecompressError);

/// What inflating the raw DEFLATE stream `data` gives when the output may
/// grow to at most `max_size` bytes (`None` where it fails).
pub uninterp spec fn inflate_limited(data: Seq<u8>, max_size: usize) -> Option<Seq<u8>>;

/// `miniz_oxide::inflate::decompress_to_vec_with_limit`: succeeds or fails as
/// a function of its two arguments, and on success its output holds at most
/// `max_size` bytes.  What the output is, is left to the name above.
pub assume_specification[ miniz_oxide::inflate::decompress_to_vec_with_limit ](
    input: &[u8],
    max_size: usize,
) -> (r: Result<Vec<u8>, DecompressError>)
    ensures
        r is Ok <==> inflate_limited(input@, max_size) is Some,
        r matches Ok(v) ==> inflate_limited(input@, max_size) == Some(v@),
        r matches Ok(v) ==> v@.len() <= max_size,
;

/// The text of a `ZM` payload: the bytes after its 2-byte zlib header
/// inflated (to at most 600000 bytes) and read as UTF-8.
pub open spec fn zm_text(data: Seq<u8>) -> Option<Seq<char>> {
    if data.len() < 2 {
        None
    } else {
        match inflate_limited(data.skip(2), ZM_OUTPUT_LIMIT) {
            Some(out) => if valid_utf8(out) {
                Some(decode_utf8(out))
            } else {
                None
            },
            None => None,
        }
    }
}

/// The text of a `ZM` payload whose inflated bytes are UTF-8.
pub fn decode_zm_packet_data(data: &Vec<u8>) -> (r: String)
    requires
        data@.len() >= 2,
        inflate_limited(data@.skip(2), ZM_OUTPUT_LIMIT) matches Some(out) && valid_utf8(out),
    ensures
        zm_text(data@) == Some(r@),
        inflate_limited(data@.skip(2), ZM_OUTPUT_LIMIT) == Some(encode_utf8(r@)),
{
    let body = &data.as_slice()[2..data.len()];
    assert(body@ =~= data@.skip(2));
    let payload = decompress_to_vec_with_limit(body, ZM_OUTPUT_LIMIT).unwrap();
    text_of_inflated(payload)
}

/// The text that an inflated `ZM` payload holds, which must be UTF-8.
pub fn text_of_inflated(payload: Vec<u8>) -> (r: String)
    requires
        valid_utf8(payload@),
    ensures
        r@ == decode_utf8(payload@),
        encode_utf8(r@) == payload@,
{
    proof {
        decode_utf8_encode_utf8(payload@);
    }
    String::from_utf8(payload).unwrap()
}

/// The text of a `ZM` payload, or `None` where it is too short, does not
/// inflate within the limit, or is not UTF-8.
pub fn try_decode_zm_packet_data(data: &Vec<u8>) -> (r: Option<String>)
    ensures
        match r {
            Some(s) => zm_text(data@) == Some(s@) && inflate_limited(data@.skip(2), ZM_OUTPUT_LIMIT)
                == Some(encode_utf8(s@)),
            None => zm_text(data@) is None,
        },
{
    if data.len() < 2 {
        return None;
    }
    let body = &data.as_slice()[2..data.len()];
    assert(body@ =~= data@.skip(2));
    match decompress_to_vec_with_limit(body, ZM_OUTPUT_LIMIT) {
        Ok(payload) => {
            if std::str::from_utf8(payload.as_slice()).is_ok() {
                Some(decode_zm_packet_data(data))
            } else {
                None
            }
        },
        Err(_) => None,
    }
}

} // verus!

//! Unpacking gzip.

use std::io::Read;
use vstd::prelude::*;

verus! {

/// What a gzip stream unpacks to, or what is wrong with it.
pub uninterp spec fn unpacked(bytes: Seq<u8>) -> Result<Seq<u8>, Seq<char>>;

/// `flate2::read::GzDecoder` over some bytes, read to its end: what their
/// first member unpacks to, or the text of the error.
#[verifier::external_body]
pub(crate) fn gunzip(bytes: &[u8]) -> (r: Result<Vec<u8>, String>)
    ensures
        match r {
            Ok(v) => unpacked(bytes@) == Ok::<Seq<u8>, Seq<char>>(v@),
            Err(e) => unpacked(bytes@) == Err::<Seq<u8>, Seq<char>>(e@),
        },
{
    let mut out: Vec<u8> = Vec::new();
    match flate2::read::GzDecoder::new(bytes).read_to_end(&mut out) {
        Ok(_) => Ok(out),
        Err(e) => Err(e.to_string()),
    }
}

/// Whether a file starts as gzip does. One shorter than two bytes does not.
pub open spec fn packed(bytes: Seq<u8>) -> bool {
    bytes.len() >= 2 && bytes[0] == 0x1f && bytes[1] == 0x8b
}

pub fn is_gzip(head: &[u8]) -> (r: bool)
    ensures
        r == packed(head@),
{
    head.len() >= 2 && head[0] == 0x1f && head[1] == 0x8b
}

/// What an image holds: what it unpacks to where it is packed, else itself.
pub open spec fn held(bytes: Seq<u8>) -> Result<Seq<u8>, Seq<char>> {
    if packed(bytes) {
        unpacked(bytes)
    } else {
        Ok(bytes)
    }
}

/// Unpack an image where it is packed; the error says which image it was.
pub fn maybe_gunzip(src: &str, bytes: Vec<u8>) -> (r: Result<Vec<u8>, String>)
    ensures
        match r {
            Ok(v) => held(bytes@) == Ok::<Seq<u8>, Seq<char>>(v@),
            Err(e) => packed(bytes@) && unpacked(bytes@) is Err && e@ == "decompress "@ + src@
                + " failed: "@ + unpacked(bytes@)->Err_0,
        },
{
    if !is_gzip(bytes.as_slice()) {
        return Ok(bytes);
    }
    match gunzip(bytes.as_slice()) {
        Ok(v) => Ok(v),
        Err(e) => Err(crate::text::cat4("decompress ", src, " failed: ", e.as_str())),
    }
}

} // verus!

//! The contract web-bundle framing: a state blob laid out as a big-endian
//! `u64` metadata length, the metadata bytes, a big-endian `u64` web length,
//! and the web bytes (an XZ-compressed tar archive, opaque here).

use vstd::prelude::*;
use crate::bytes::read_u64_be;
use crate::bytes::spec_u64_from_be;

verus! {

/// The two parts of a framed state blob: the metadata and the compressed
/// web archive.
pub struct WebBundle {
    pub metadata: Vec<u8>,
    pub web: Vec<u8>,
}

/// Whether `s` is a well-framed bundle: both length prefixes fit and the
/// declared regions lie inside the blob.
pub open spec fn spec_bundle_ok(s: Seq<u8>) -> bool {
    &&& s.len() >= 8
    &&& 8 + spec_metadata_len(s) + 8 <= s.len()
    &&& 8 + spec_metadata_len(s) + 8 + spec_web_len(s) <= s.len()
}

/// The metadata length a blob declares.
pub open spec fn spec_metadata_len(s: Seq<u8>) -> int {
    spec_u64_from_be(s.subrange(0, 8)) as int
}

/// The web length a blob declares.
pub open spec fn spec_web_len(s: Seq<u8>) -> int {
    spec_u64_from_be(s.subrange(8 + spec_metadata_len(s), 16 + spec_metadata_len(s))) as int
}

/// Split a framed state blob into its metadata and web bytes. Succeeds
/// exactly when both declared regions lie inside the blob; trailing bytes
/// are ignored, as the source framing does.
pub fn parse_bundle(s: &Vec<u8>) -> (r: Option<WebBundle>)
    ensures
        r is Some <==> spec_bundle_ok(s@),
        r matches Some(b) ==> {
            &&& b.metadata@ == s@.subrange(8, 8 + spec_metadata_len(s@))
            &&& b.web@ == s@.subrange(
                16 + spec_metadata_len(s@),
                16 + spec_metadata_len(s@) + spec_web_len(s@),
            )
        },
{
    let n = s.len();
    if n < 8 {
        return None;
    }
    let mlen64 = read_u64_be(s, 0);
    if mlen64 > (n as u64) || (n as u64) - mlen64 < 16 {
        return None;
    }
    let mlen = mlen64 as usize;
    let wlen64 = read_u64_be(s, 8 + mlen);
    proof {
        assert(s@.subrange(8 + mlen as int, 16 + mlen as int) =~= s@.subrange(
            8 + spec_metadata_len(s@),
            16 + spec_metadata_len(s@),
        ));
    }
    if wlen64 > (n as u64) - mlen64 - 16 {
        return None;
    }
    let wlen = wlen64 as usize;
    let mut metadata: Vec<u8> = Vec::new();
    let mut i: usize = 0;
    while i < mlen
        invariant
            n == s@.len(),
            8 + mlen + 8 + wlen <= n,
            i <= mlen,
            metadata@ =~= s@.subrange(8, 8 + i as int),
        decreases mlen - i,
    {
        metadata.push(s[8 + i]);
        i = i + 1;
    }
    let mut web: Vec<u8> = Vec::new();
    let mut j: usize = 0;
    while j < wlen
        invariant
            n == s@.len(),
            8 + mlen + 8 + wlen <= n,
            j <= wlen,
            web@ =~= s@.subrange(16 + mlen as int, 16 + mlen as int + j as int),
        decreases wlen - j,
    {
        web.push(s[16 + mlen + j]);
        j = j + 1;
    }
    Some(WebBundle { metadata, web })
}

} // verus!

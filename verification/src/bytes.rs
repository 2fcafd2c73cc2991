//! Byte-level helpers: equality of byte strings and the fixed-width integer
//! codecs used by the signing message, the buffer-builder ABI and the web
//! bundle framing.

use vstd::prelude::*;

verus! {

/// Little-endian byte `k` of the 64-bit word `u`.
pub open spec fn spec_le_byte(u: u64, k: int) -> u8 {
    ((u >> (8 * k) as u64) & 0xff) as u8
}

/// The eight little-endian bytes of the 64-bit word `u`.
pub open spec fn spec_le_bytes(u: u64) -> Seq<u8> {
    Seq::new(8, |k: int| spec_le_byte(u, k))
}

/// The 64-bit word whose eight big-endian bytes are `s[0..8]`.
pub open spec fn spec_u64_from_be(s: Seq<u8>) -> u64 {
    ((s[0] as u64) << 56u64) | ((s[1] as u64) << 48u64) | ((s[2] as u64) << 40u64) | ((
    s[3] as u64) << 32u64) | ((s[4] as u64) << 24u64) | ((s[5] as u64) << 16u64) | ((
    s[6] as u64) << 8u64) | (s[7] as u64)
}

/// The 32-bit word whose four little-endian bytes are `s[0..4]`.
pub open spec fn spec_u32_from_le(s: Seq<u8>) -> u32 {
    (s[0] as u32) | ((s[1] as u32) << 8u32) | ((s[2] as u32) << 16u32) | ((s[3] as u32) << 24u32)
}

/// Whether two byte strings hold the same bytes.
pub fn bytes_eq(a: &Vec<u8>, b: &Vec<u8>) -> (r: bool)
    ensures
        r == (a@ == b@),
{
    if a.len() != b.len() {
        return false;
    }
    let n = a.len();
    let mut i: usize = 0;
    while i < n
        invariant
            n == a@.len() == b@.len(),
            i <= n,
            forall|k: int| 0 <= k < i ==> a@[k] == b@[k],
        decreases n - i,
    {
        if a[i] != b[i] {
            return false;
        }
        i = i + 1;
    }
    proof {
        assert(a@ =~= b@);
    }
    true
}

/// A fresh copy of a byte string.
pub fn copy_bytes(v: &Vec<u8>) -> (r: Vec<u8>)
    ensures
        r@ == v@,
{
    let mut out: Vec<u8> = Vec::new();
    let n = v.len();
    let mut i: usize = 0;
    while i < n
        invariant
            n == v@.len(),
            i <= n,
            out@ =~= v@.take(i as int),
        decreases n - i,
    {
        out.push(v[i]);
        i = i + 1;
    }
    proof {
        assert(out@ =~= v@);
    }
    out
}

/// Append the eight little-endian bytes of `u` to `out`.
pub fn push_le_bytes(out: &mut Vec<u8>, u: u64)
    ensures
        final(out)@ == old(out)@ + spec_le_bytes(u),
{
    let mut k: usize = 0;
    while k < 8
        invariant
            k <= 8,
            out@ =~= old(out)@ + spec_le_bytes(u).take(k as int),
        decreases 8 - k,
    {
        let byte = ((u >> (8 * k as u64)) & 0xff) as u8;
        proof {
            assert(byte == spec_le_byte(u, k as int));
        }
        out.push(byte);
        k = k + 1;
    }
    proof {
        assert(spec_le_bytes(u).take(8) =~= spec_le_bytes(u));
    }
}

/// The 64-bit word held big-endian at `s[at .. at + 8]`.
pub fn read_u64_be(s: &Vec<u8>, at: usize) -> (r: u64)
    requires
        at + 8 <= s@.len(),
    ensures
        r == spec_u64_from_be(s@.subrange(at as int, at + 8)),
{
    let n = s.len();
    proof {
        assert(at + 8 <= n);
    }
    let r = ((s[at] as u64) << 56u64) | ((s[at + 1] as u64) << 48u64) | ((s[at + 2] as u64)
        << 40u64) | ((s[at + 3] as u64) << 32u64) | ((s[at + 4] as u64) << 24u64) | ((s[at
        + 5] as u64) << 16u64) | ((s[at + 6] as u64) << 8u64) | (s[at + 7] as u64);
    proof {
        let sub = s@.subrange(at as int, at + 8);
        assert(sub[0] == s@[at as int] && sub[1] == s@[at + 1] && sub[2] == s@[at + 2] && sub[3]
            == s@[at + 3] && sub[4] == s@[at + 4] && sub[5] == s@[at + 5] && sub[6] == s@[at + 6]
            && sub[7] == s@[at + 7]);
    }
    r
}

/// The 32-bit word held little-endian at `s[at .. at + 4]`.
pub fn read_u32_le(s: &Vec<u8>, at: usize) -> (r: u32)
    requires
        at + 4 <= s@.len(),
    ensures
        r == spec_u32_from_le(s@.subrange(at as int, at + 4)),
{
    let n = s.len();
    proof {
        assert(at + 4 <= n);
    }
    let r = (s[at] as u32) | ((s[at + 1] as u32) << 8u32) | ((s[at + 2] as u32) << 16u32) | ((
    s[at + 3] as u32) << 24u32);
    proof {
        let sub = s@.subrange(at as int, at + 4);
        assert(sub[0] == s@[at as int] && sub[1] == s@[at + 1] && sub[2] == s@[at + 2] && sub[3]
            == s@[at + 3]);
    }
    r
}

} // verus!

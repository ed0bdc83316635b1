//! Little-endian field access and byte-range arithmetic.
//!
//! Every on-disk structure of the engine is framed with the helpers in
//! this module: fixed-width little-endian integers written into byte
//! buffers at explicit offsets.

use vstd::prelude::*;

use vstd::assert_seqs_equal;
use vstd::bytes::{
    lemma_auto_spec_u16_to_from_le_bytes, lemma_auto_spec_u64_to_from_le_bytes,
    spec_u16_from_le_bytes, spec_u16_to_le_bytes, spec_u64_from_le_bytes, spec_u64_to_le_bytes,
    u16_from_le_bytes, u16_to_le_bytes, u64_from_le_bytes, u64_to_le_bytes,
};
use vstd::slice::{slice_subrange, slice_to_vec};

verus! {

/// A sequence of `n` zero bytes.
pub open spec fn zeros(n: int) -> Seq<u8> {
    Seq::new(n as nat, |i: int| 0u8)
}

/// A vector of `n` zero bytes.
pub fn zero_vec(n: usize) -> (r: Vec<u8>)
    ensures
        r@ == zeros(n as int),
{
    let mut v: Vec<u8> = Vec::new();
    let mut i: usize = 0;
    while i < n
        invariant
            i <= n,
            v@ == zeros(i as int),
        decreases n - i,
    {
        v.push(0u8);
        proof {
            assert_seqs_equal!(v@ == zeros(i + 1));
        }
        i = i + 1;
    }
    v
}

/// Copies `src` into `dst` starting at `off`; the length of `dst` does
/// not change.
pub fn copy_bytes_at(dst: &mut Vec<u8>, off: usize, src: &[u8])
    requires
        off + src@.len() <= old(dst)@.len(),
    ensures
        final(dst)@ == old(dst)@.update_subrange_with(off as int, src@),
{
    let n: usize = src.len();
    let dlen: usize = dst.len();
    let mut i: usize = 0;
    while i < n
        invariant
            n == src@.len(),
            off + n <= dlen,
            dlen == dst@.len(),
            dst@.len() == old(dst)@.len(),
            i <= n,
            forall|j: int| off <= j < off + i ==> dst@[j] == src@[j - off],
            forall|j: int|
                0 <= j < dst@.len() && !(off <= j < off + i) ==> dst@[j] == old(dst)@[j],
        decreases n - i,
    {
        dst[off + i] = src[i];
        i = i + 1;
    }
    proof {
        assert_seqs_equal!(dst@ == old(dst)@.update_subrange_with(off as int, src@));
    }
}

/// Returns a copy of `src[off..off + len]`.
pub fn read_bytes_range(src: &[u8], off: usize, len: usize) -> (r: Vec<u8>)
    requires
        off + len <= src@.len(),
    ensures
        r@ == src@.subrange(off as int, off + len),
{
    let n: usize = src.len();
    slice_to_vec(slice_subrange(src, off, off + len))
}

/// Writes `x` as eight little-endian bytes into `dst` at `off`.
pub fn put_u64(dst: &mut Vec<u8>, off: usize, x: u64)
    requires
        off + 8 <= old(dst)@.len(),
    ensures
        final(dst)@ == old(dst)@.update_subrange_with(off as int, spec_u64_to_le_bytes(x)),
{
    proof {
        lemma_auto_spec_u64_to_from_le_bytes();
    }
    let b: Vec<u8> = u64_to_le_bytes(x);
    copy_bytes_at(dst, off, b.as_slice());
}

/// Reads eight little-endian bytes from `src` at `off` as a `u64`.
pub fn get_u64(src: &[u8], off: usize) -> (r: u64)
    requires
        off + 8 <= src@.len(),
    ensures
        r == spec_u64_from_le_bytes(src@.subrange(off as int, off + 8)),
{
    let n: usize = src.len();
    u64_from_le_bytes(slice_subrange(src, off, off + 8))
}

/// Writes `x` as two little-endian bytes into `dst` at `off`.
pub fn put_u16(dst: &mut Vec<u8>, off: usize, x: u16)
    requires
        off + 2 <= old(dst)@.len(),
    ensures
        final(dst)@ == old(dst)@.update_subrange_with(off as int, spec_u16_to_le_bytes(x)),
{
    proof {
        lemma_auto_spec_u16_to_from_le_bytes();
    }
    let b: Vec<u8> = u16_to_le_bytes(x);
    copy_bytes_at(dst, off, b.as_slice());
}

/// Reads two little-endian bytes from `src` at `off` as a `u16`.
pub fn get_u16(src: &[u8], off: usize) -> (r: u16)
    requires
        off + 2 <= src@.len(),
    ensures
        r == spec_u16_from_le_bytes(src@.subrange(off as int, off + 2)),
{
    let n: usize = src.len();
    u16_from_le_bytes(slice_subrange(src, off, off + 2))
}

/// Writes one byte into `dst` at `off`.
pub fn put_u8(dst: &mut Vec<u8>, off: usize, x: u8)
    requires
        off < old(dst)@.len(),
    ensures
        final(dst)@ == old(dst)@.update(off as int, x),
{
    dst[off] = x;
}

/// After overwriting `[off, off + b.len())`, the bytes of that range
/// are exactly `b`.
pub proof fn lemma_update_subrange_inside(s: Seq<u8>, off: int, b: Seq<u8>)
    requires
        0 <= off,
        off + b.len() <= s.len(),
    ensures
        s.update_subrange_with(off, b).subrange(off, off + b.len()) == b,
{
    assert_seqs_equal!(s.update_subrange_with(off, b).subrange(off, off + b.len()) == b);
}

/// After overwriting `[off, off + b.len())`, any range disjoint from it
/// is unchanged.
pub proof fn lemma_update_subrange_outside(s: Seq<u8>, off: int, b: Seq<u8>, a1: int, a2: int)
    requires
        0 <= off,
        off + b.len() <= s.len(),
        0 <= a1 <= a2 <= s.len(),
        a2 <= off || off + b.len() <= a1,
    ensures
        s.update_subrange_with(off, b).subrange(a1, a2) == s.subrange(a1, a2),
{
    assert_seqs_equal!(s.update_subrange_with(off, b).subrange(a1, a2) == s.subrange(a1, a2));
}

/// Two adjacent overwrites compose into one.
pub proof fn lemma_update_subrange_adjacent(s: Seq<u8>, off: int, b1: Seq<u8>, b2: Seq<u8>)
    requires
        0 <= off,
        off + b1.len() + b2.len() <= s.len(),
    ensures
        s.update_subrange_with(off, b1).update_subrange_with(off + b1.len(), b2)
            == s.update_subrange_with(off, b1 + b2),
{
    assert_seqs_equal!(
        s.update_subrange_with(off, b1).update_subrange_with(off + b1.len(), b2)
            == s.update_subrange_with(off, b1 + b2)
    );
}

/// Splitting a subrange at an interior point.
pub proof fn lemma_subrange_split(s: Seq<u8>, a: int, m: int, b: int)
    requires
        0 <= a <= m <= b <= s.len(),
    ensures
        s.subrange(a, b) == s.subrange(a, m) + s.subrange(m, b),
{
    assert_seqs_equal!(s.subrange(a, b) == s.subrange(a, m) + s.subrange(m, b));
}

/// A subrange of a subrange is a subrange of the whole.
pub proof fn lemma_subrange_of_subrange(s: Seq<u8>, a: int, b: int, i: int, j: int)
    requires
        0 <= a <= b <= s.len(),
        0 <= i <= j <= b - a,
    ensures
        s.subrange(a, b).subrange(i, j) == s.subrange(a + i, a + j),
{
    assert_seqs_equal!(s.subrange(a, b).subrange(i, j) == s.subrange(a + i, a + j));
}

} // verus!

//! Binary cursor primitives: fixed-width integer reads at byte offsets and
//! scans for terminator bytes, over a borrowed descriptor blob.

use vstd::prelude::*;

verus! {

broadcast use vstd::slice::group_slice_axioms;

/// The big-endian 32-bit integer stored at `s[i .. i + 4]`.
pub open spec fn be_u32_at(s: Seq<u8>, i: int) -> u32
    recommends
        0 <= i,
        i + 4 <= s.len(),
{
    ((s[i] as u32) << 24) | ((s[i + 1] as u32) << 16) | ((s[i + 2] as u32) << 8) | (s[i
        + 3] as u32)
}

/// The big-endian 64-bit integer stored at `s[i .. i + 8]`.
pub open spec fn be_u64_at(s: Seq<u8>, i: int) -> u64
    recommends
        0 <= i,
        i + 8 <= s.len(),
{
    ((be_u32_at(s, i) as u64) << 32) | (be_u32_at(s, i + 4) as u64)
}

/// The little-endian 32-bit integer stored at `s[i .. i + 4]`.
pub open spec fn le_u32_at(s: Seq<u8>, i: int) -> u32
    recommends
        0 <= i,
        i + 4 <= s.len(),
{
    (s[i] as u32) | ((s[i + 1] as u32) << 8) | ((s[i + 2] as u32) << 16) | ((s[i
        + 3] as u32) << 24)
}

/// The little-endian 64-bit integer stored at `s[i .. i + 8]`.
pub open spec fn le_u64_at(s: Seq<u8>, i: int) -> u64
    recommends
        0 <= i,
        i + 8 <= s.len(),
{
    (le_u32_at(s, i) as u64) | ((le_u32_at(s, i + 4) as u64) << 32)
}

/// Reads the big-endian 32-bit integer at byte offset `off`.
pub fn read_be_u32(b: &[u8], off: usize) -> (r: u32)
    requires
        off + 4 <= b@.len(),
    ensures
        r == be_u32_at(b@, off as int),
{
    ((b[off] as u32) << 24) | ((b[off + 1] as u32) << 16) | ((b[off + 2] as u32) << 8) | (b[off
        + 3] as u32)
}

/// Reads the big-endian 64-bit integer at byte offset `off`.
pub fn read_be_u64(b: &[u8], off: usize) -> (r: u64)
    requires
        off + 8 <= b@.len(),
    ensures
        r == be_u64_at(b@, off as int),
{
    proof {
        assert(b.len() == b@.len());
    }
    let hi = read_be_u32(b, off);
    let lo = read_be_u32(b, off + 4);
    ((hi as u64) << 32) | (lo as u64)
}

/// Reads the little-endian 32-bit integer at byte offset `off`.
pub fn read_le_u32(b: &[u8], off: usize) -> (r: u32)
    requires
        off + 4 <= b@.len(),
    ensures
        r == le_u32_at(b@, off as int),
{
    (b[off] as u32) | ((b[off + 1] as u32) << 8) | ((b[off + 2] as u32) << 16) | ((b[off
        + 3] as u32) << 24)
}

/// Reads the little-endian 64-bit integer at byte offset `off`.
pub fn read_le_u64(b: &[u8], off: usize) -> (r: u64)
    requires
        off + 8 <= b@.len(),
    ensures
        r == le_u64_at(b@, off as int),
{
    proof {
        assert(b.len() == b@.len());
    }
    let lo = read_le_u32(b, off);
    let hi = read_le_u32(b, off + 4);
    (lo as u64) | ((hi as u64) << 32)
}

/// The four big-endian bytes of `x`, most significant first.
pub open spec fn be32_bytes(x: u32) -> Seq<u8> {
    seq![(x >> 24) as u8, ((x >> 16) & 0xff) as u8, ((x >> 8) & 0xff) as u8, (x & 0xff) as u8]
}

/// Reading a big-endian 32-bit integer back from its four encoded bytes
/// gives the integer: the two conversions are inverse.
pub proof fn lemma_be32_roundtrip(s: Seq<u8>, i: int, x: u32)
    requires
        0 <= i,
        i + 4 <= s.len(),
        s.subrange(i, i + 4) == be32_bytes(x),
    ensures
        be_u32_at(s, i) == x,
{
    assert(s[i] == be32_bytes(x)[0] && s[i + 1] == be32_bytes(x)[1] && s[i + 2] == be32_bytes(x)[2]
        && s[i + 3] == be32_bytes(x)[3]) by {
        assert(forall|k: int|
            0 <= k < 4 ==> s[i + k] == #[trigger] s.subrange(i, i + 4)[k]);
    }
    assert(((((x >> 24) as u8) as u32) << 24) | (((((x >> 16) & 0xff) as u8) as u32) << 16) | ((
    (((x >> 8) & 0xff) as u8) as u32) << 8) | (((x & 0xff) as u8) as u32) == x) by (bit_vector);
}

/// The position of the first occurrence of `w` at or after `i`, or `s.len()`
/// when none follows.
pub open spec fn byte_pos(s: Seq<u8>, w: u8, i: int) -> int
    recommends
        0 <= i <= s.len(),
    decreases s.len() - i,
{
    if i < 0 || i >= s.len() {
        s.len() as int
    } else if s[i] == w {
        i
    } else {
        byte_pos(s, w, i + 1)
    }
}

/// `byte_pos` lands between `i` and `s.len()`, on an occurrence of `w` when
/// one exists, and nothing before it is `w`.
pub proof fn lemma_byte_pos(s: Seq<u8>, w: u8, i: int)
    requires
        0 <= i <= s.len(),
    ensures
        i <= byte_pos(s, w, i) <= s.len(),
        byte_pos(s, w, i) < s.len() ==> s[byte_pos(s, w, i)] == w,
        forall|j: int| i <= j < byte_pos(s, w, i) ==> s[j] != w,
    decreases s.len() - i,
{
    if i < s.len() && s[i] != w {
        lemma_byte_pos(s, w, i + 1);
    }
}

/// `byte_pos` is pinned by exhibiting the first occurrence: if `s[p]` is `w`
/// and nothing in `[i, p)` is, the scan from `i` lands on `p`.
pub proof fn lemma_byte_pos_is(s: Seq<u8>, w: u8, i: int, p: int)
    requires
        0 <= i <= p < s.len(),
        s[p] == w,
        forall|j: int| i <= j < p ==> s[j] != w,
    ensures
        byte_pos(s, w, i) == p,
    decreases p - i,
{
    if i < p {
        lemma_byte_pos_is(s, w, i + 1, p);
    }
}

/// Scans forward from `from` for the byte `w`.
pub fn find_byte(b: &[u8], w: u8, from: usize) -> (r: usize)
    requires
        from <= b@.len(),
    ensures
        r == byte_pos(b@, w, from as int),
{
    let n = b.len();
    let mut i = from;
    while i < n
        invariant
            from <= i <= n,
            n == b@.len(),
            byte_pos(b@, w, from as int) == byte_pos(b@, w, i as int),
        decreases n - i,
    {
        if b[i] == w {
            return i;
        }
        i = i + 1;
    }
    i
}

/// The position of the first zero byte at or after `i`, or `s.len()` when
/// none follows: where a null-terminated string starting at `i` ends.
pub open spec fn nul_pos(s: Seq<u8>, i: int) -> int
    recommends
        0 <= i <= s.len(),
{
    byte_pos(s, 0, i)
}

/// `nul_pos` lands between `i` and `s.len()`, on a zero byte when one
/// exists, and everything before it is non-zero.
pub proof fn lemma_nul_pos(s: Seq<u8>, i: int)
    requires
        0 <= i <= s.len(),
    ensures
        i <= nul_pos(s, i) <= s.len(),
        nul_pos(s, i) < s.len() ==> s[nul_pos(s, i)] == 0,
        forall|j: int| i <= j < nul_pos(s, i) ==> s[j] != 0,
{
    lemma_byte_pos(s, 0, i);
}

/// Scans forward from `from` for a zero byte.
pub fn find_nul(b: &[u8], from: usize) -> (r: usize)
    requires
        from <= b@.len(),
    ensures
        r == nul_pos(b@, from as int),
{
    find_byte(b, 0, from)
}

/// Byte-for-byte equality of two slices.
pub fn bytes_eq(a: &[u8], b: &[u8]) -> (r: bool)
    ensures
        r == (a@ == b@),
{
    if a.len() != b.len() {
        return false;
    }
    let n = a.len();
    let mut i: usize = 0;
    while i < n
        invariant
            i <= n,
            n == a@.len(),
            a@.len() == b@.len(),
            forall|j: int| 0 <= j < i ==> a@[j] == b@[j],
        decreases n - i,
    {
        if a[i] != b[i] {
            return false;
        }
        i = i + 1;
    }
    proof {
        assert(a@ =~= b@);
    }
    true
}

/// `n` rounded up to the next multiple of 4.
pub open spec fn pad4(n: int) -> int {
    ((n + 3) / 4) * 4
}

/// Rounding up to a multiple of 4 adds at most 3.
pub proof fn lemma_pad4(n: int)
    requires
        n >= 0,
    ensures
        n <= pad4(n) <= n + 3,
{
    assert(n <= ((n + 3) / 4) * 4 <= n + 3) by (nonlinear_arith)
        requires
            n >= 0,
    ;
}

/// Rounds `n` up to the next multiple of 4.
pub fn pad4_up(n: usize) -> (r: usize)
    requires
        n + 3 <= usize::MAX,
    ensures
        r == pad4(n as int),
{
    proof {
        lemma_pad4(n as int);
    }
    (n + 3) / 4 * 4
}

} // verus!

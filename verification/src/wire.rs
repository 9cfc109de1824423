//! Little-endian integers and byte-string helpers shared by the decoders and
//! the encoders.
use vstd::bytes::*;
use vstd::prelude::*;
use vstd::slice::slice_subrange;

verus! {

broadcast use vstd::slice::group_slice_axioms;

/// The `u16` stored little-endian at `off` in `s`.
pub open spec fn le_u16(s: Seq<u8>, off: int) -> u16 {
    spec_u16_from_le_bytes(s.subrange(off, off + 2))
}

/// The `u32` stored little-endian at `off` in `s`.
pub open spec fn le_u32(s: Seq<u8>, off: int) -> u32 {
    spec_u32_from_le_bytes(s.subrange(off, off + 4))
}

/// The `u64` stored little-endian at `off` in `s`.
pub open spec fn le_u64(s: Seq<u8>, off: int) -> u64 {
    spec_u64_from_le_bytes(s.subrange(off, off + 8))
}

/// The `u128` stored little-endian at `off` in `s`.
pub open spec fn le_u128(s: Seq<u8>, off: int) -> u128 {
    spec_u128_from_le_bytes(s.subrange(off, off + 16))
}

/// Every byte of `s` is zero.
pub open spec fn all_zero(s: Seq<u8>) -> bool {
    forall|i: int| 0 <= i < s.len() ==> s[i] == 0
}

/// Strict lexicographic order on byte strings (a proper prefix is smaller).
pub open spec fn bytes_lt(a: Seq<u8>, b: Seq<u8>) -> bool {
    exists|k: int|
        0 <= k <= a.len() && k <= b.len() && a.subrange(0, k) == b.subrange(0, k) && (if k
            == a.len() {
            k < b.len()
        } else {
            k < b.len() && a[k] < b[k]
        })
}

/// The concatenation of `f(x)` for the items `x` of `s`, in order.
pub open spec fn concat_map<T>(s: Seq<T>, f: spec_fn(T) -> Seq<u8>) -> Seq<u8>
    decreases s.len(),
{
    if s.len() == 0 {
        Seq::empty()
    } else {
        concat_map(s.drop_last(), f) + f(s.last())
    }
}

/// Extending a prefix by one item appends that item's encoding.
pub proof fn lemma_concat_map_take<T>(s: Seq<T>, f: spec_fn(T) -> Seq<u8>, i: int)
    requires
        0 <= i < s.len(),
    ensures
        concat_map(s.take(i + 1), f) == concat_map(s.take(i), f) + f(s[i]),
{
    assert(s.take(i + 1).drop_last() =~= s.take(i));
}

/// Reads the little-endian `u16` at `off`.
pub fn u16_at(bytes: &[u8], off: usize) -> (r: u16)
    requires
        off + 2 <= bytes.len(),
    ensures
        r == le_u16(bytes@, off as int),
{
    u16_from_le_bytes(slice_subrange(bytes, off, off + 2))
}

/// Reads the little-endian `u32` at `off`.
pub fn u32_at(bytes: &[u8], off: usize) -> (r: u32)
    requires
        off + 4 <= bytes.len(),
    ensures
        r == le_u32(bytes@, off as int),
{
    u32_from_le_bytes(slice_subrange(bytes, off, off + 4))
}

/// Reads the little-endian `u64` at `off`.
pub fn u64_at(bytes: &[u8], off: usize) -> (r: u64)
    requires
        off + 8 <= bytes.len(),
    ensures
        r == le_u64(bytes@, off as int),
{
    u64_from_le_bytes(slice_subrange(bytes, off, off + 8))
}

/// Reads the little-endian `u128` at `off`.
pub fn u128_at(bytes: &[u8], off: usize) -> (r: u128)
    requires
        off + 16 <= bytes.len(),
    ensures
        r == le_u128(bytes@, off as int),
{
    u128_from_le_bytes(slice_subrange(bytes, off, off + 16))
}

/// Copies the 32 bytes at `off` into an array.
pub fn array32_at(bytes: &[u8], off: usize) -> (r: [u8; 32])
    requires
        off + 32 <= bytes.len(),
    ensures
        r@ == bytes@.subrange(off as int, off + 32),
{
    let mut out = [0u8; 32];
    let mut i: usize = 0;
    while i < 32
        invariant
            i <= 32,
            off + 32 <= bytes.len(),
            out@.len() == 32,
            forall|k: int| 0 <= k < i ==> out@[k] == bytes@[off + k],
        decreases 32 - i,
    {
        out[i] = bytes[off + i];
        i += 1;
    }
    assert(out@ =~= bytes@.subrange(off as int, off + 32));
    out
}

/// Returns `true` when every byte of `bytes` is zero.
pub fn is_all_zero(bytes: &[u8]) -> (r: bool)
    ensures
        r == all_zero(bytes@),
{
    let mut i: usize = 0;
    while i < bytes.len()
        invariant
            i <= bytes@.len(),
            forall|k: int| 0 <= k < i ==> bytes@[k] == 0,
        decreases bytes@.len() - i,
    {
        if bytes[i] != 0 {
            return false;
        }
        i += 1;
    }
    true
}

/// Returns `true` when the two byte strings are equal.
pub fn bytes_equal(a: &[u8], b: &[u8]) -> (r: bool)
    ensures
        r == (a@ == b@),
{
    if a.len() != b.len() {
        return false;
    }
    let mut i: usize = 0;
    while i < a.len()
        invariant
            i <= a@.len(),
            a@.len() == b@.len(),
            forall|k: int| 0 <= k < i ==> a@[k] == b@[k],
        decreases a@.len() - i,
    {
        if a[i] != b[i] {
            return false;
        }
        i += 1;
    }
    assert(a@ =~= b@);
    true
}

/// Strict lexicographic comparison of two byte strings.
pub fn bytes_less(a: &[u8], b: &[u8]) -> (r: bool)
    ensures
        r == bytes_lt(a@, b@),
{
    let mut i: usize = 0;
    while i < a.len() && i < b.len()
        invariant
            i <= a@.len(),
            i <= b@.len(),
            a@.subrange(0, i as int) == b@.subrange(0, i as int),
        decreases a@.len() - i,
    {
        if a[i] != b[i] {
            let r = a[i] < b[i];
            proof {
                let k = i as int;
                if r {
                    assert(a@.subrange(0, k) == b@.subrange(0, k));
                } else {
                    assert forall|j: int|
                        0 <= j <= a@.len() && j <= b@.len() && a@.subrange(0, j) == b@.subrange(
                            0,
                            j,
                        ) implies !(if j == a@.len() {
                        j < b@.len()
                    } else {
                        j < b@.len() && a@[j] < b@[j]
                    }) by {
                        if j > k {
                            assert(a@.subrange(0, j)[k] == a@[k]);
                            assert(b@.subrange(0, j)[k] == b@[k]);
                        } else if j < k {
                            assert(a@.subrange(0, k)[j] == a@[j]);
                            assert(b@.subrange(0, k)[j] == b@[j]);
                        }
                    }
                }
            }
            return r;
        }
        i += 1;
        assert(a@.subrange(0, i as int) =~= b@.subrange(0, i as int));
    }
    let r = i < b.len();
    proof {
        let k = i as int;
        if !r {
            assert forall|j: int|
                0 <= j <= a@.len() && j <= b@.len() && a@.subrange(0, j) == b@.subrange(
                    0,
                    j,
                ) implies !(if j == a@.len() {
                j < b@.len()
            } else {
                j < b@.len() && a@[j] < b@[j]
            }) by {
                if j < k {
                    assert(a@.subrange(0, k)[j] == a@[j]);
                    assert(b@.subrange(0, k)[j] == b@[j]);
                }
            }
        } else {
            assert(k == a@.len());
        }
    }
    r
}

/// Appends `src` to `out`.
pub fn append_bytes(out: &mut Vec<u8>, src: &[u8])
    ensures
        final(out)@ == old(out)@ + src@,
{
    let mut i: usize = 0;
    let ghost start = out@;
    while i < src.len()
        invariant
            i <= src@.len(),
            out@ == start + src@.subrange(0, i as int),
        decreases src@.len() - i,
    {
        out.push(src[i]);
        i += 1;
        assert(out@ =~= start + src@.subrange(0, i as int));
    }
    assert(src@.subrange(0, src@.len() as int) =~= src@);
}

} // verus!

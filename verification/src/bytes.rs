//! Reading numbers and windows out of the bytes of the target.
use vstd::prelude::*;
use vstd::slice::{slice_subrange, slice_to_vec};

verus! {

/// The number that `s` holds in little-endian order: the first byte counts
/// least.
pub open spec fn le_value(s: Seq<u8>) -> nat
    decreases s.len(),
{
    if s.len() == 0 {
        0
    } else {
        s[0] as nat + 256 * le_value(s.drop_first())
    }
}

/// The smallest number that `n` bytes cannot hold.
pub open spec fn byte_limit(n: nat) -> nat
    decreases n,
{
    if n == 0 {
        1
    } else {
        256 * byte_limit((n - 1) as nat)
    }
}

/// A number read from `s` is below the limit of the length of `s`.
pub proof fn lemma_le_value_bound(s: Seq<u8>)
    ensures
        le_value(s) < byte_limit(s.len()),
    decreases s.len(),
{
    if s.len() > 0 {
        lemma_le_value_bound(s.drop_first());
    }
}

/// Eight bytes hold what a `u64` holds.
pub proof fn lemma_byte_limit_u64(n: nat)
    requires
        n <= 8,
    ensures
        byte_limit(n) <= 0x1_0000_0000_0000_0000,
{
    reveal_with_fuel(byte_limit, 10);
}

/// Whether the `size` bytes at `offset` lie within the first `len` bytes.
pub open spec fn in_window(len: nat, offset: u64, size: u64) -> bool {
    offset + size <= len
}

/// The `size` bytes at `offset`.
pub open spec fn window(bytes: Seq<u8>, offset: u64, size: u64) -> Seq<u8> {
    bytes.subrange(offset as int, offset + size)
}

/// The bytes from `offset` on; none where `offset` lies behind the end.
pub open spec fn tail(bytes: Seq<u8>, offset: u64) -> Seq<u8> {
    if offset <= bytes.len() {
        bytes.skip(offset as int)
    } else {
        Seq::empty()
    }
}

/// The unsigned number of `size` bytes that stands at `offset` in
/// little-endian order, extended with zeros to 64 bits.
pub open spec fn le_at(bytes: Seq<u8>, offset: u64, size: u64) -> u64 {
    le_value(window(bytes, offset, size)) as u64
}

/// Reads the unsigned number of `size` bytes that stands at `offset` in
/// little-endian order.
pub fn read_le(bytes: &[u8], offset: u64, size: u64) -> (value: u64)
    requires
        size <= 8,
        in_window(bytes@.len(), offset, size),
    ensures
        value == le_at(bytes@, offset, size),
        value == le_value(window(bytes@, offset, size)),
{
    let len = bytes.len();
    assert(offset <= len && size <= len);
    let start = offset as usize;
    let n = size as usize;
    let ghost w = window(bytes@, offset, size);
    let mut value: u64 = 0;
    let mut k: usize = n;
    proof {
        assert(w.skip(n as int) =~= Seq::<u8>::empty());
    }
    while k > 0
        invariant
            k <= n <= 8,
            n == size,
            start == offset,
            start + n <= bytes@.len() <= usize::MAX,
            w == window(bytes@, offset, size),
            value == le_value(w.skip(k as int)),
        decreases k,
    {
        k -= 1;
        proof {
            let rest = w.skip(k as int);
            assert(rest.drop_first() =~= w.skip(k as int + 1));
            assert(rest[0] == bytes@[start + k]);
            lemma_le_value_bound(rest);
            lemma_byte_limit_u64(rest.len());
        }
        value = value * 256 + bytes[start + k] as u64;
    }
    proof {
        assert(w.skip(0) =~= w);
        lemma_le_value_bound(w);
        lemma_byte_limit_u64(w.len());
    }
    value
}

/// Copies the `size` bytes at `offset`.
pub fn copy_window(bytes: &[u8], offset: u64, size: u64) -> (out: Vec<u8>)
    requires
        in_window(bytes@.len(), offset, size),
    ensures
        out@ == window(bytes@, offset, size),
{
    let len = bytes.len();
    assert(offset <= len && size <= len);
    let start = offset as usize;
    let end = start + size as usize;
    slice_to_vec(slice_subrange(bytes, start, end))
}

/// The `size` bytes at `offset`.
pub fn window_of(bytes: &[u8], offset: u64, size: u64) -> (out: &[u8])
    requires
        in_window(bytes@.len(), offset, size),
    ensures
        out@ == window(bytes@, offset, size),
{
    let len = bytes.len();
    assert(offset <= len && size <= len);
    let start = offset as usize;
    let end = start + size as usize;
    slice_subrange(bytes, start, end)
}

/// The bytes from `offset` on; none where `offset` lies behind the end.
pub fn tail_of(bytes: &[u8], offset: u64) -> (out: &[u8])
    ensures
        out@ == tail(bytes@, offset),
{
    if offset <= bytes.len() as u64 {
        let out = slice_subrange(bytes, offset as usize, bytes.len());
        proof {
            assert(out@ =~= bytes@.skip(offset as int));
        }
        out
    } else {
        let out = slice_subrange(bytes, 0, 0);
        proof {
            assert(out@ =~= Seq::<u8>::empty());
        }
        out
    }
}

/// Whether the `size` bytes at `offset` lie within `bytes`.
pub fn fits(bytes: &[u8], offset: u64, size: u64) -> (yes: bool)
    ensures
        yes == in_window(bytes@.len(), offset, size),
{
    let len = bytes.len() as u64;
    offset <= len && size <= len - offset
}

} // verus!

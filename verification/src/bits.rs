//! The reversible bit/byte reordering between the byte-oriented order that
//! cryptographic primitives expect and the hardware-native order of the FPGA
//! bitstream: within each 4-byte little-endian word the bit order is
//! reversed, which amounts to reversing the bits of every byte and mirroring
//! the byte order inside the word.

use vstd::prelude::*;
use vstd::arithmetic::div_mod::{
    lemma_fundamental_div_mod, lemma_fundamental_div_mod_converse_div,
    lemma_fundamental_div_mod_converse_mod,
};

verus! {

/// Reversal of the bit order of one byte, by swapping at widths 1, 2 and 4.
pub open spec fn spec_rev8(b: u8) -> u8 {
    rev_step4(rev_step2(rev_step1(b)))
}

pub open spec fn rev_step1(b: u8) -> u8 {
    ((b >> 1) & 0x55) | ((b & 0x55) << 1)
}

pub open spec fn rev_step2(b: u8) -> u8 {
    ((b >> 2) & 0x33) | ((b & 0x33) << 2)
}

pub open spec fn rev_step4(b: u8) -> u8 {
    ((b >> 4) & 0x0f) | ((b & 0x0f) << 4)
}

/// Position that index `i` reads from: the mirrored byte within its
/// 4-byte-aligned group.
pub open spec fn flip_index(i: int) -> int {
    4 * (i / 4) + (3 - i % 4)
}

/// The bit-order transform of a whole byte sequence, 4-byte group by group.
pub open spec fn flip_seq(s: Seq<u8>) -> Seq<u8> {
    Seq::new(s.len(), |i: int| spec_rev8(s[flip_index(i)]))
}

/// Reversing the bits of a byte twice returns the byte.
pub proof fn lemma_rev8_involution()
    ensures
        forall|b: u8| #[trigger] spec_rev8(spec_rev8(b)) == b,
{
    assert forall|b: u8| #[trigger] spec_rev8(spec_rev8(b)) == b by {
        assert(rev_step4(rev_step2(rev_step1(rev_step4(rev_step2(rev_step1(b)))))) == b)
            by (bit_vector);
    }
}

/// The mirrored index stays inside a 4-byte-aligned sequence and mirroring
/// twice returns the index.
pub proof fn lemma_flip_index_bounds(i: int, n: int)
    requires
        0 <= i < n,
        n % 4 == 0,
    ensures
        0 <= flip_index(i) < n,
        flip_index(flip_index(i)) == i,
{
    let q = i / 4;
    let r = i % 4;
    lemma_fundamental_div_mod(i, 4);
    let j = flip_index(i);
    assert(j == q * 4 + (3 - r));
    lemma_fundamental_div_mod_converse_div(j, 4, q, 3 - r);
    lemma_fundamental_div_mod_converse_mod(j, 4, q, 3 - r);
    assert(flip_index(j) == 4 * q + r);
    let m = n / 4;
    lemma_fundamental_div_mod(n, 4);
    assert(n == 4 * m);
    assert(q < m) by {
        if q >= m {
            assert(i >= 4 * q) by {
                lemma_fundamental_div_mod(i, 4);
            }
            assert(4 * q >= 4 * m) by (nonlinear_arith)
                requires q >= m;
        }
    }
    assert(4 * q + 3 < 4 * m) by (nonlinear_arith)
        requires q < m;
}

/// Applying the bit-order transform twice returns the original sequence
/// (the transform is its own inverse).
pub proof fn lemma_bit_order_involution(s: Seq<u8>)
    requires
        s.len() % 4 == 0,
    ensures
        flip_seq(flip_seq(s)) == s,
{
    let n = s.len() as int;
    assert forall|i: int| 0 <= i < n implies flip_seq(flip_seq(s))[i] == s[i] by {
        lemma_flip_index_bounds(i, n);
        lemma_flip_index_bounds(flip_index(i), n);
        lemma_rev8_involution();
    }
    assert(flip_seq(flip_seq(s)) =~= s);
}

/// An all-zero byte sequence of length `n`.
pub open spec fn zero_bytes(n: nat) -> Seq<u8> {
    Seq::new(n, |i: int| 0u8)
}

/// Copies `n` bytes of `s` starting at `start` into a fresh vector.
pub(crate) fn take_range(s: &[u8], start: usize, n: usize) -> (r: Vec<u8>)
    requires
        start + n <= s@.len(),
    ensures
        r@ == s@.subrange(start as int, start as int + n as int),
{
    let slen = s.len();
    let mut r: Vec<u8> = Vec::new();
    let mut i: usize = 0;
    while i < n
        invariant
            i <= n,
            start + n <= slen,
            slen == s@.len(),
            r@.len() == i,
            forall|j: int| 0 <= j < i ==> r@[j] == s@[start + j],
        decreases n - i,
    {
        r.push(s[start + i]);
        i += 1;
    }
    proof {
        assert(r@ =~= s@.subrange(start as int, start as int + n as int));
    }
    r
}

/// `s` with the range starting at `at` replaced by `v`.
pub open spec fn overwrite<T>(s: Seq<T>, at: int, v: Seq<T>) -> Seq<T> {
    Seq::new(s.len(), |i: int| if at <= i < at + v.len() { v[i - at] } else { s[i] })
}

/// The pointwise XOR of two byte sequences of equal length.
pub open spec fn xor_bytes(a: Seq<u8>, b: Seq<u8>) -> Seq<u8> {
    Seq::new(a.len(), |i: int| a[i] ^ b[i])
}

/// Replaces `data[at..at + v.len()]` by `v`.
pub(crate) fn write_range(data: &mut Vec<u8>, at: usize, v: &[u8])
    requires
        at + v@.len() <= old(data)@.len(),
    ensures
        final(data)@ == overwrite(old(data)@, at as int, v@),
{
    let n = v.len();
    let total = data.len();
    let mut i: usize = 0;
    while i < n
        invariant
            i <= n,
            n == v@.len(),
            at + n <= total,
            total == data@.len(),
            data@.len() == old(data)@.len(),
            forall|k: int| 0 <= k < i ==> data@[at + k] == v@[k],
            forall|k: int| 0 <= k < data@.len() && !(at <= k < at + i) ==> data@[k] == old(
                data,
            )@[k],
        decreases n - i,
    {
        data.set(at + i, v[i]);
        i += 1;
    }
    proof {
        assert(data@ =~= overwrite(old(data)@, at as int, v@));
    }
}

/// A fresh all-zero byte vector of length `n`.
pub(crate) fn zero_vec(n: usize) -> (r: Vec<u8>)
    ensures
        r@ == zero_bytes(n as nat),
{
    let mut r: Vec<u8> = Vec::new();
    let mut i: usize = 0;
    while i < n
        invariant
            i <= n,
            r@.len() == i,
            forall|k: int| 0 <= k < i ==> r@[k] == 0u8,
        decreases n - i,
    {
        r.push(0);
        i += 1;
    }
    proof {
        assert(r@ =~= zero_bytes(n as nat));
    }
    r
}

/// Appends all of `src` to `dst`.
pub(crate) fn append_bytes(dst: &mut Vec<u8>, src: &[u8])
    ensures
        final(dst)@ == old(dst)@ + src@,
{
    let n = src.len();
    let mut i: usize = 0;
    while i < n
        invariant
            i <= n,
            n == src@.len(),
            dst@.len() == old(dst)@.len() + i,
            dst@ == old(dst)@ + src@.subrange(0, i as int),
        decreases n - i,
    {
        dst.push(src[i]);
        proof {
            assert(dst@ =~= old(dst)@ + src@.subrange(0, i as int + 1));
        }
        i += 1;
    }
    proof {
        assert(src@.subrange(0, n as int) =~= src@);
    }
}

/// The pointwise XOR of two byte slices of equal length.
pub fn xor_bytes_exec(a: &[u8], b: &[u8]) -> (r: Vec<u8>)
    requires
        a@.len() == b@.len(),
    ensures
        r@ == xor_bytes(a@, b@),
{
    let n = a.len();
    let mut r: Vec<u8> = Vec::new();
    let mut i: usize = 0;
    while i < n
        invariant
            i <= n,
            n == a@.len(),
            n == b@.len(),
            r@.len() == i,
            forall|k: int| 0 <= k < i ==> r@[k] == (a@[k] ^ b@[k]),
        decreases n - i,
    {
        r.push(a[i] ^ b[i]);
        i += 1;
    }
    proof {
        assert(r@ =~= xor_bytes(a@, b@));
    }
    r
}

/// Reverses the order of the bits of one byte.
pub fn rev8(b: u8) -> (r: u8)
    ensures
        r == spec_rev8(b),
{
    let b1 = ((b >> 1) & 0x55) | ((b & 0x55) << 1);
    let b2 = ((b1 >> 2) & 0x33) | ((b1 & 0x33) << 2);
    ((b2 >> 4) & 0x0f) | ((b2 & 0x0f) << 4)
}

/// Reorders `input`, whose length must be a multiple of 4, into the bit
/// order the bitstream loader expects: within each 4-byte little-endian
/// word the bit order is reversed and the bytes are mirrored.
pub fn bitflip(input: &[u8]) -> (out: Vec<u8>)
    requires
        input@.len() % 4 == 0,
    ensures
        out@ == flip_seq(input@),
{
    let n = input.len();
    let mut out: Vec<u8> = Vec::new();
    let mut i: usize = 0;
    while i < n
        invariant
            input@.len() == n,
            n % 4 == 0,
            i <= n,
            out@.len() == i,
            forall|j: int| 0 <= j < i ==> out@[j] == flip_seq(input@)[j],
        decreases n - i,
    {
        let r = i % 4;
        let src = (i - r) + (3 - r);
        proof {
            lemma_flip_index_bounds(i as int, n as int);
            lemma_fundamental_div_mod(i as int, 4);
            assert(src == flip_index(i as int));
        }
        out.push(rev8(input[src]));
        i += 1;
    }
    proof {
        assert(out@ =~= flip_seq(input@));
    }
    out
}

} // verus!

//! A seekable chained-block decryption engine over the encrypted region of
//! the gateware image. The engine replicates cipher-block-chaining
//! decryption, but lets the caller start at any block boundary: the chaining
//! value for a block is the stored IV at offset zero and otherwise the
//! (bit-order-transformed) ciphertext block immediately before it. Every
//! ciphertext block passes through the bit-order transform before block
//! decryption, matching the hardware-native order of the bitstream.

use vstd::prelude::*;
use vstd::arithmetic::div_mod::{
    lemma_fundamental_div_mod, lemma_fundamental_div_mod_converse_div,
    lemma_fundamental_div_mod_converse_mod,
};
use crate::bits::{bitflip, flip_seq, take_range, zero_bytes};
use crate::primitives::{aes256_decrypt_block, aes256_decrypt_block_of, barrier};

verus! {

/// Cipher block size in bytes.
pub const AES_BLOCKSIZE: usize = 16;

/// Marker word that immediately precedes the bit-order-transformed IV.
pub const IV_MARKER: u32 = 0x3001_6004;

/// Marker word that immediately precedes the ciphertext word count.
pub const LEN_MARKER: u32 = 0x3003_4001;

/// The 32-bit big-endian word at byte position `pos` of `s`.
pub open spec fn be_word(s: Seq<u8>, pos: int) -> int {
    0x100_0000 * (s[pos] as int) + 0x1_0000 * (s[pos + 1] as int) + 0x100 * (s[pos + 2] as int)
        + (s[pos + 3] as int)
}

/// Byte-by-byte scan of the bitstream for the two marker words, keeping the
/// position right after the latest IV marker seen. Stops at the first
/// ciphertext-length marker and yields the IV position and the position of
/// the length word; yields nothing if either marker is missing.
pub open spec fn scan_markers(s: Seq<u8>, pos: int, iv_pos: Option<int>) -> Option<(int, int)>
    decreases s.len() - pos,
{
    if pos < 0 || pos + 4 > s.len() {
        None
    } else if be_word(s, pos) == LEN_MARKER as int {
        match iv_pos {
            Some(ivp) => Some((ivp, pos + 4)),
            None => None,
        }
    } else if be_word(s, pos) == IV_MARKER as int {
        scan_markers(s, pos + 1, Some(pos + 4))
    } else {
        scan_markers(s, pos + 1, iv_pos)
    }
}

/// What constructing an oracle over `s` resolves: the IV position, the start
/// of the encrypted region and its byte length. Nothing is resolved if a
/// marker is missing, a field runs past the end of the image, or the
/// encrypted region is not a whole number of cipher blocks.
pub open spec fn parse_bitstream(s: Seq<u8>) -> Option<(int, int, int)> {
    match scan_markers(s, 0, None) {
        Some((ivp, lp)) => {
            let ct_len = 4 * be_word(s, lp);
            let ct_start = lp + 4;
            if ivp + 16 <= s.len() && lp + 4 <= s.len() && ct_start + ct_len <= s.len()
                && ct_len % 16 == 0 {
                Some((ivp, ct_start, ct_len))
            } else {
                None
            }
        },
        None => None,
    }
}

/// The chaining value for block `b`: the IV for the first block, otherwise
/// the bit-order-transformed ciphertext block immediately before it.
pub open spec fn chain_block(iv: Seq<u8>, ct: Seq<u8>, b: int) -> Seq<u8> {
    if b == 0 {
        iv
    } else {
        flip_seq(ct.subrange(16 * (b - 1), 16 * b))
    }
}

/// The plaintext byte at absolute ciphertext offset `pos`: the block holding
/// `pos` is bit-order-transformed, block-decrypted, and XORed with its
/// chaining value.
pub open spec fn plain_byte(key: Seq<u8>, iv: Seq<u8>, ct: Seq<u8>, pos: int) -> u8 {
    let b = pos / 16;
    let dec = aes256_decrypt_block_of(key, flip_seq(ct.subrange(16 * b, 16 * b + 16)));
    dec[pos % 16] ^ chain_block(iv, ct, b)[pos % 16]
}

/// The `len` plaintext bytes starting at absolute ciphertext offset `from`.
pub open spec fn plain_range(key: Seq<u8>, iv: Seq<u8>, ct: Seq<u8>, from: int, len: int) -> Seq<u8> {
    Seq::new(len as nat, |i: int| plain_byte(key, iv, ct, from + i))
}

/// `n` rounded up to a whole number of cipher blocks.
pub open spec fn round_up_block(n: int) -> int {
    16 * ((n + 15) / 16)
}

/// Random-access chaining equivalence: decrypting blocks `[0, n)` in one
/// call and decrypting block `b` alone by seeking to its boundary produce
/// the same plaintext for block `b`.
pub proof fn lemma_random_access_chaining(key: Seq<u8>, iv: Seq<u8>, ct: Seq<u8>, b: int, n: int)
    requires
        0 <= b,
        16 * b + 16 <= n,
        n <= ct.len(),
    ensures
        plain_range(key, iv, ct, 0, n).subrange(16 * b, 16 * b + 16)
            == plain_range(key, iv, ct, 16 * b, 16),
{
    assert(plain_range(key, iv, ct, 0, n).subrange(16 * b, 16 * b + 16)
        =~= plain_range(key, iv, ct, 16 * b, 16));
}

proof fn lemma_block_index(index: int, j: int)
    requires
        index >= 0,
        index % 16 == 0,
        0 <= j < 16,
    ensures
        (index + j) / 16 == index / 16,
        (index + j) % 16 == j,
        index == 16 * (index / 16),
{
    lemma_fundamental_div_mod(index, 16);
    lemma_fundamental_div_mod_converse_div(index + j, 16, index / 16, j);
    lemma_fundamental_div_mod_converse_mod(index + j, 16, index / 16, j);
}

pub(crate) proof fn lemma_round_up_block_exact(n: int)
    requires
        n >= 0,
        n % 16 == 0,
    ensures
        round_up_block(n) == n,
{
    lemma_fundamental_div_mod(n, 16);
    lemma_fundamental_div_mod_converse_div(n + 15, 16, n / 16, 15);
}

proof fn lemma_round_up_block_step(off: int, len: int)
    requires
        0 <= off < len,
        off % 16 == 0,
    ensures
        off + 16 <= round_up_block(len),
{
    lemma_fundamental_div_mod(off, 16);
    let a = off / 16;
    let r = (len - 1) % 16;
    lemma_fundamental_div_mod(len - 1, 16);
    let t = (len - 1) / 16;
    lemma_fundamental_div_mod_converse_div(len + 15, 16, t + 1, r);
    assert(a <= t) by (nonlinear_arith)
        requires
            16 * a <= 16 * t + r,
            0 <= r < 16,
    ;
    assert(16 * (a + 1) <= 16 * (t + 1)) by (nonlinear_arith)
        requires
            a <= t,
    ;
}

pub(crate) fn be_word_exec(s: &[u8], pos: usize) -> (w: u32)
    requires
        pos + 4 <= s@.len(),
    ensures
        w as int == be_word(s@, pos as int),
{
    (s[pos] as u32) * 0x100_0000 + (s[pos + 1] as u32) * 0x1_0000 + (s[pos + 2] as u32) * 0x100
        + (s[pos + 3] as u32)
}

spec fn iv_opt(have: bool, v: int) -> Option<int> {
    if have {
        Some(v)
    } else {
        None
    }
}

/// The oracle: a resolved IV, the cipher key, and the located encrypted
/// region of the bitstream. `clear` wipes the key material; every scope that
/// holds an oracle must call it on each of its exit paths.
pub struct BitstreamOracle {
    key: Vec<u8>,
    iv: Vec<u8>,
    ciphertext: Vec<u8>,
}

impl BitstreamOracle {
    /// The cipher key bytes currently held.
    pub closed spec fn key_bytes(self) -> Seq<u8> {
        self.key@
    }

    /// The resolved initialization vector.
    pub closed spec fn iv_bytes(self) -> Seq<u8> {
        self.iv@
    }

    /// The located encrypted region of the bitstream.
    pub closed spec fn ct_bytes(self) -> Seq<u8> {
        self.ciphertext@
    }

    pub open spec fn wf(self) -> bool {
        self.key_bytes().len() == 32 && self.iv_bytes().len() == 16
            && self.ct_bytes().len() % 16 == 0
    }

    /// Scans the bitstream word-by-word for the marker preceding the IV and
    /// the marker preceding the ciphertext length, so that header changes
    /// across tool versions do not break the parse. Yields no oracle if
    /// either marker is absent or the resolved fields run past the image.
    pub fn new(key: &[u8], bitstream: &[u8]) -> (r: Option<BitstreamOracle>)
        requires
            key@.len() == 32,
        ensures
            r.is_some() == parse_bitstream(bitstream@).is_some(),
            r.is_some() ==> {
                let p = parse_bitstream(bitstream@).unwrap();
                let o = r.unwrap();
                &&& o.wf()
                &&& o.key_bytes() == key@
                &&& o.iv_bytes() == flip_seq(bitstream@.subrange(p.0, p.0 + 16))
                &&& o.ct_bytes() == bitstream@.subrange(p.1, p.1 + p.2)
            },
    {
        let n = bitstream.len();
        if n < 4 {
            return None;
        }
        let mut pos: usize = 0;
        let mut iv_pos: usize = 0;
        let mut have_iv: bool = false;
        let mut found: bool = false;
        while pos <= n - 4
            invariant_except_break
                !found,
                4 <= n,
                n == bitstream@.len(),
                pos <= n,
                have_iv ==> iv_pos <= n,
                scan_markers(bitstream@, 0, None)
                    == scan_markers(bitstream@, pos as int, iv_opt(have_iv, iv_pos as int)),
            ensures
                4 <= n,
                n == bitstream@.len(),
                pos <= n,
                have_iv ==> iv_pos <= n,
                scan_markers(bitstream@, 0, None)
                    == scan_markers(bitstream@, pos as int, iv_opt(have_iv, iv_pos as int)),
                found ==> pos + 4 <= n && be_word(bitstream@, pos as int) == LEN_MARKER as int,
                !found ==> pos + 4 > n,
            decreases n - pos,
        {
            let w = be_word_exec(bitstream, pos);
            if w == LEN_MARKER {
                found = true;
                break;
            }
            if w == IV_MARKER {
                iv_pos = pos + 4;
                have_iv = true;
            }
            pos = pos + 1;
        }
        if !found || !have_iv {
            return None;
        }
        let len_pos = pos + 4;
        if n - len_pos < 4 {
            return None;
        }
        let ct_words = be_word_exec(bitstream, len_pos);
        let ct_len64: u64 = 4u64 * (ct_words as u64);
        let ct_start = len_pos + 4;
        if n - iv_pos < 16 {
            return None;
        }
        if ct_len64 > (n as u64) - (ct_start as u64) {
            return None;
        }
        if ct_len64 % 16 != 0 {
            return None;
        }
        proof {
            assert(ct_len64 <= usize::MAX as u64);
        }
        let ct_len = ct_len64 as usize;
        let iv_raw = take_range(bitstream, iv_pos, 16);
        let iv = bitflip(iv_raw.as_slice());
        let ciphertext = take_range(bitstream, ct_start, ct_len);
        let key_copy = take_range(key, 0, 32);
        proof {
            assert(flip_seq(iv_raw@).len() == 16);
        }
        Some(BitstreamOracle { key: key_copy, iv, ciphertext })
    }

    /// Length in bytes of the encrypted region.
    pub fn ciphertext_len(&self) -> (r: usize)
        ensures
            r == self.ct_bytes().len(),
    {
        self.ciphertext.len()
    }

    /// Decrypts `output.len()` bytes starting at ciphertext offset `from`,
    /// which must sit on a cipher block boundary. Only whole blocks are read
    /// internally, so a partial final output block still needs its whole
    /// ciphertext block inside the encrypted region.
    pub fn decrypt(&self, from: usize, output: &mut Vec<u8>)
        requires
            self.wf(),
            from % 16 == 0,
            from + round_up_block(old(output)@.len() as int) <= self.ct_bytes().len(),
        ensures
            final(output)@ == plain_range(
                self.key_bytes(),
                self.iv_bytes(),
                self.ct_bytes(),
                from as int,
                old(output)@.len() as int,
            ),
            final(output)@.len() == old(output)@.len(),
    {
        let len = output.len();
        let ct_total = self.ciphertext.len();
        let ghost key = self.key_bytes();
        let ghost iv = self.iv_bytes();
        let ghost ct = self.ct_bytes();
        let mut off: usize = 0;
        while off < len
            invariant
                self.wf(),
                key == self.key_bytes(),
                iv == self.iv_bytes(),
                ct == self.ct_bytes(),
                ct_total == ct.len(),
                from % 16 == 0,
                off % 16 == 0,
                off <= round_up_block(len as int),
                from + round_up_block(len as int) <= ct_total,
                output@.len() == len,
                forall|k: int| 0 <= k < off && k < len
                    ==> output@[k] == plain_byte(key, iv, ct, from + k),
            decreases len + 16 - off,
        {
            proof {
                lemma_round_up_block_step(off as int, len as int);
                lemma_fundamental_div_mod(from as int, 16);
                lemma_fundamental_div_mod(off as int, 16);
                lemma_fundamental_div_mod_converse_mod(
                    from as int + off as int,
                    16,
                    from as int / 16 + off as int / 16,
                    0,
                );
            }
            let index = from + off;
            let ghost b = index as int / 16;
            proof {
                lemma_block_index(index as int, 0);
            }
            let chain: Vec<u8> = if index == 0 {
                take_range(self.iv.as_slice(), 0, 16)
            } else {
                proof {
                    assert(index as int == 16 * b && index as int > 0);
                    assert(b >= 1) by (nonlinear_arith)
                        requires
                            index as int == 16 * b,
                            index as int > 0,
                    ;
                }
                let prev = take_range(self.ciphertext.as_slice(), index - 16, 16);
                bitflip(prev.as_slice())
            };
            proof {
                assert(chain@ == chain_block(iv, ct, b));
            }
            let ct_block = take_range(self.ciphertext.as_slice(), index, 16);
            let flipped = bitflip(ct_block.as_slice());
            let dec = aes256_decrypt_block(self.key.as_slice(), flipped.as_slice());
            proof {
                assert(16 * b + 16 <= ct.len());
                assert(dec@ == aes256_decrypt_block_of(
                    key,
                    flip_seq(ct.subrange(16 * b, 16 * b + 16)),
                ));
            }
            let m = if len - off < 16 {
                len - off
            } else {
                16
            };
            let mut j: usize = 0;
            while j < m
                invariant
                    j <= m,
                    m <= 16,
                    off + m <= len,
                    index == from + off,
                    index as int == 16 * b,
                    output@.len() == len,
                    dec@.len() == 16,
                    chain@.len() == 16,
                    dec@ == aes256_decrypt_block_of(
                        key,
                        flip_seq(ct.subrange(16 * b, 16 * b + 16)),
                    ),
                    chain@ == chain_block(iv, ct, b),
                    forall|k: int| 0 <= k < off && k < len
                        ==> output@[k] == plain_byte(key, iv, ct, from + k),
                    forall|k: int| 0 <= k < j
                        ==> #[trigger] output@[off + k] == plain_byte(key, iv, ct, index + k),
                decreases m - j,
            {
                let v = dec[j] ^ chain[j];
                output.set(off + j, v);
                proof {
                    lemma_block_index(index as int, j as int);
                }
                j = j + 1;
            }
            proof {
                assert forall|k: int| 0 <= k < off + 16 && k < len
                    implies output@[k] == plain_byte(key, iv, ct, from + k) by {
                    if k >= off {
                        assert(output@[off + (k - off)] == plain_byte(
                            key,
                            iv,
                            ct,
                            index + (k - off),
                        ));
                    }
                }
            }
            off = off + 16;
        }
        proof {
            assert(output@ =~= plain_range(key, iv, ct, from as int, len as int));
        }
    }

    /// Overwrites the cipher key and the IV with zero and issues a
    /// compiler-visible barrier, so the wipe cannot be elided. Call this on
    /// every exit path of any scope holding the oracle.
    pub fn clear(&mut self)
        ensures
            final(self).key_bytes() == zero_bytes(old(self).key_bytes().len()),
            final(self).iv_bytes() == zero_bytes(old(self).iv_bytes().len()),
            final(self).ct_bytes() == old(self).ct_bytes(),
    {
        let nk = self.key.len();
        let mut i: usize = 0;
        while i < nk
            invariant
                i <= nk,
                self.key@.len() == nk,
                self.iv@ == old(self).iv@,
                self.ciphertext@ == old(self).ciphertext@,
                forall|k: int| 0 <= k < i ==> self.key@[k] == 0u8,
            decreases nk - i,
        {
            self.key.set(i, 0);
            i = i + 1;
        }
        let nv = self.iv.len();
        let mut j: usize = 0;
        while j < nv
            invariant
                j <= nv,
                self.iv@.len() == nv,
                self.key@.len() == old(self).key@.len(),
                self.ciphertext@ == old(self).ciphertext@,
                forall|k: int| 0 <= k < self.key@.len() ==> self.key@[k] == 0u8,
                forall|k: int| 0 <= k < j ==> self.iv@[k] == 0u8,
            decreases nv - j,
        {
            self.iv.set(j, 0);
            j = j + 1;
        }
        barrier();
        proof {
            assert(self.key@ =~= zero_bytes(old(self).key@.len()));
            assert(self.iv@ =~= zero_bytes(old(self).iv@.len()));
        }
    }
}

} // verus!

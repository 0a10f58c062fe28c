//! The password cache: a fixed-layout byte region holding, per password
//! purpose, a 32-byte one-way-derived digest and a validity word, plus the
//! cached 32-byte FPGA key and its validity word. Plaintext passwords never
//! appear here. The layout is explicit so that a forced zero-fill stays
//! meaningful: every field is read and written at a defined offset, and the
//! purge operations end with a compiler-visible barrier.

use vstd::prelude::*;
use crate::bits::{overwrite, take_range, write_range, zero_bytes, zero_vec};
use crate::layout::PasswordType;
use crate::primitives::barrier;

verus! {

/// Byte offsets of the cache fields.
pub const CACHE_BOOT_PW: usize = 0;

pub const CACHE_BOOT_VALID: usize = 32;

pub const CACHE_UPDATE_PW: usize = 36;

pub const CACHE_UPDATE_VALID: usize = 68;

pub const CACHE_FPGA_KEY: usize = 72;

pub const CACHE_FPGA_VALID: usize = 104;

/// Total size of the cache region in bytes.
pub const CACHE_LEN: usize = 108;

/// The stored form of a set validity word.
pub open spec fn valid_flag() -> Seq<u8> {
    seq![1u8, 0u8, 0u8, 0u8]
}

pub struct PasswordCache {
    data: Vec<u8>,
}

impl PasswordCache {
    /// Every byte of the cache region.
    pub closed spec fn bytes(self) -> Seq<u8> {
        self.data@
    }

    pub open spec fn wf(self) -> bool {
        self.bytes().len() == CACHE_LEN
    }

    pub open spec fn boot_digest(self) -> Seq<u8> {
        self.bytes().subrange(CACHE_BOOT_PW as int, CACHE_BOOT_PW + 32)
    }

    pub open spec fn update_digest(self) -> Seq<u8> {
        self.bytes().subrange(CACHE_UPDATE_PW as int, CACHE_UPDATE_PW + 32)
    }

    pub open spec fn fpga_key(self) -> Seq<u8> {
        self.bytes().subrange(CACHE_FPGA_KEY as int, CACHE_FPGA_KEY + 32)
    }

    pub open spec fn boot_valid(self) -> bool {
        self.bytes()[CACHE_BOOT_VALID as int] != 0
    }

    pub open spec fn update_valid(self) -> bool {
        self.bytes()[CACHE_UPDATE_VALID as int] != 0
    }

    pub open spec fn fpga_key_valid(self) -> bool {
        self.bytes()[CACHE_FPGA_VALID as int] != 0
    }

    /// A fresh, fully zeroed cache: nothing cached, nothing valid.
    pub fn new() -> (r: PasswordCache)
        ensures
            r.wf(),
            r.bytes() == zero_bytes(CACHE_LEN as nat),
    {
        PasswordCache { data: zero_vec(CACHE_LEN) }
    }

    /// Stores a derived digest under `purpose` and marks it valid.
    pub fn set_digest(&mut self, purpose: PasswordType, digest: &[u8])
        requires
            old(self).wf(),
            digest@.len() == 32,
        ensures
            final(self).wf(),
            final(self).bytes() == overwrite(
                overwrite(old(self).bytes(), digest_offset(purpose) as int, digest@),
                valid_offset(purpose) as int,
                valid_flag(),
            ),
    {
        let off = match purpose {
            PasswordType::Boot => CACHE_BOOT_PW,
            PasswordType::Update => CACHE_UPDATE_PW,
        };
        let voff = match purpose {
            PasswordType::Boot => CACHE_BOOT_VALID,
            PasswordType::Update => CACHE_UPDATE_VALID,
        };
        write_range(&mut self.data, off, digest);
        let flag: Vec<u8> = vec![1u8, 0u8, 0u8, 0u8];
        write_range(&mut self.data, voff, flag.as_slice());
        proof {
            assert(flag@ =~= valid_flag());
        }
    }

    /// Stores the plaintext FPGA key and marks it valid.
    pub fn set_fpga_key(&mut self, key: &[u8])
        requires
            old(self).wf(),
            key@.len() == 32,
        ensures
            final(self).wf(),
            final(self).bytes() == overwrite(
                overwrite(old(self).bytes(), CACHE_FPGA_KEY as int, key@),
                CACHE_FPGA_VALID as int,
                valid_flag(),
            ),
    {
        write_range(&mut self.data, CACHE_FPGA_KEY, key);
        let flag: Vec<u8> = vec![1u8, 0u8, 0u8, 0u8];
        write_range(&mut self.data, CACHE_FPGA_VALID, flag.as_slice());
        proof {
            assert(flag@ =~= valid_flag());
        }
    }

    /// A copy of the digest stored under `purpose`.
    pub fn digest(&self, purpose: PasswordType) -> (r: Vec<u8>)
        requires
            self.wf(),
        ensures
            r@ == (match purpose {
                PasswordType::Boot => self.boot_digest(),
                PasswordType::Update => self.update_digest(),
            }),
            r@.len() == 32,
    {
        let off = match purpose {
            PasswordType::Boot => CACHE_BOOT_PW,
            PasswordType::Update => CACHE_UPDATE_PW,
        };
        take_range(self.data.as_slice(), off, 32)
    }

    /// A copy of the cached FPGA key.
    pub fn fpga_key_copy(&self) -> (r: Vec<u8>)
        requires
            self.wf(),
        ensures
            r@ == self.fpga_key(),
            r@.len() == 32,
    {
        take_range(self.data.as_slice(), CACHE_FPGA_KEY, 32)
    }

    pub fn is_valid(&self, purpose: PasswordType) -> (r: bool)
        requires
            self.wf(),
        ensures
            r == (match purpose {
                PasswordType::Boot => self.boot_valid(),
                PasswordType::Update => self.update_valid(),
            }),
    {
        let voff = match purpose {
            PasswordType::Boot => CACHE_BOOT_VALID,
            PasswordType::Update => CACHE_UPDATE_VALID,
        };
        self.data[voff] != 0
    }

    pub fn is_fpga_key_valid(&self) -> (r: bool)
        requires
            self.wf(),
        ensures
            r == self.fpga_key_valid(),
    {
        self.data[CACHE_FPGA_VALID] != 0
    }

    /// Zeroes the digest and validity word of `purpose`; for the update
    /// purpose the cached FPGA key and its validity word go too. Ends with a
    /// compiler-visible barrier so the wipe cannot be elided.
    pub fn purge(&mut self, purpose: PasswordType)
        requires
            old(self).wf(),
        ensures
            final(self).wf(),
            final(self).bytes() == overwrite(
                old(self).bytes(),
                purge_offset(purpose) as int,
                zero_bytes(purge_len(purpose) as nat),
            ),
    {
        let (off, n) = match purpose {
            PasswordType::Boot => (CACHE_BOOT_PW, 36usize),
            PasswordType::Update => (CACHE_UPDATE_PW, 72usize),
        };
        let zeros = zero_vec(n);
        write_range(&mut self.data, off, zeros.as_slice());
        barrier();
    }

    /// A copy of the whole cache region, so its state can be inspected.
    pub fn snapshot(&self) -> (r: Vec<u8>)
        requires
            self.wf(),
        ensures
            r@ == self.bytes(),
    {
        take_range(self.data.as_slice(), 0, CACHE_LEN)
    }
}

/// Zeroization of the update purpose: after its purge, every byte of the
/// update digest, its validity word, the cached FPGA key and its validity
/// word reads as zero, while the boot digest and its validity word are
/// unchanged.
pub proof fn lemma_purge_update_zeroizes(c: Seq<u8>)
    requires
        c.len() == CACHE_LEN,
    ensures
        forall|i: int| CACHE_UPDATE_PW <= i < CACHE_LEN ==> overwrite(
            c,
            purge_offset(PasswordType::Update) as int,
            zero_bytes(purge_len(PasswordType::Update) as nat),
        )[i] == 0,
        overwrite(
            c,
            purge_offset(PasswordType::Update) as int,
            zero_bytes(purge_len(PasswordType::Update) as nat),
        ).subrange(0, CACHE_UPDATE_PW as int) == c.subrange(0, CACHE_UPDATE_PW as int),
{
    let purged = overwrite(
        c,
        purge_offset(PasswordType::Update) as int,
        zero_bytes(purge_len(PasswordType::Update) as nat),
    );
    assert(purged.subrange(0, CACHE_UPDATE_PW as int) =~= c.subrange(0, CACHE_UPDATE_PW as int));
}

/// Where the digest of `purpose` sits.
pub open spec fn digest_offset(purpose: PasswordType) -> usize {
    match purpose {
        PasswordType::Boot => CACHE_BOOT_PW,
        PasswordType::Update => CACHE_UPDATE_PW,
    }
}

/// Where the validity word of `purpose` sits.
pub open spec fn valid_offset(purpose: PasswordType) -> usize {
    match purpose {
        PasswordType::Boot => CACHE_BOOT_VALID,
        PasswordType::Update => CACHE_UPDATE_VALID,
    }
}

/// Where the purge of `purpose` starts.
pub open spec fn purge_offset(purpose: PasswordType) -> usize {
    match purpose {
        PasswordType::Boot => CACHE_BOOT_PW,
        PasswordType::Update => CACHE_UPDATE_PW,
    }
}

/// How many bytes the purge of `purpose` covers: its digest and validity
/// word, and for the update purpose also the FPGA key and its validity word.
pub open spec fn purge_len(purpose: PasswordType) -> usize {
    match purpose {
        PasswordType::Boot => 36,
        PasswordType::Update => 72,
    }
}

} // verus!

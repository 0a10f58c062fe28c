//! The key-provisioning core. `RootKeys` owns the injected stores it works
//! over: the 256-word key store (read-only here), the live gateware image
//! (never written here), the staging flash region that takes the pre-patch
//! backup, the loader and kernel images, the in-memory staging copy of the
//! key store, and the password cache. Hardware access is injected as plain
//! address-indexed data so the core verifies and tests against a
//! software-backed store.

use vstd::prelude::*;
use vstd::arithmetic::div_mod::{
    lemma_fundamental_div_mod, lemma_fundamental_div_mod_converse_div, lemma_mod_mod,
    lemma_sub_mod_noop,
};
use crate::bits::{
    append_bytes, bitflip, flip_seq, overwrite, take_range, write_range, xor_bytes,
    xor_bytes_exec, zero_bytes, zero_vec,
};
use crate::cache::{
    digest_offset, purge_len, purge_offset, valid_flag, valid_offset, PasswordCache,
    CACHE_BOOT_PW, CACHE_BOOT_VALID, CACHE_FPGA_KEY, CACHE_FPGA_VALID, CACHE_LEN,
    CACHE_UPDATE_PW, CACHE_UPDATE_VALID,
};
use crate::layout::{
    config_initialized, initialized_mask, spec_purpose_code, purpose_code,
    PasswordRetentionPolicy, PasswordType, RootkeyResult, SignatureInFlash, KEYROM_CONFIG,
    KEYROM_FPGA_KEY, KEYROM_PEPPER, KEYROM_SELFSIGN_PRIVKEY, KEYROM_SELFSIGN_PUBKEY,
    KEYROM_USER_KEY, SIGBLOCK_SIZE,
};
use crate::oracle::{
    be_word, be_word_exec, lemma_round_up_block_exact, parse_bitstream, plain_range,
    round_up_block, BitstreamOracle,
};
use crate::primitives::{
    barrier, bcrypt_hash, bcrypt_of, ed25519_public_key, ed25519_public_of,
    ed25519_sign_prehashed, ed25519ph_signature_of, sha256, sha256_of, sha512_256,
    sha512_256_of,
};

verus! {

/// The bcrypt cost parameter: a latency/security tradeoff, set below the
/// recommended production cost to keep interactive latency tolerable.
pub const BCRYPT_COST: u32 = 7;

/// Size of the key store in 32-bit words.
pub const KEYROM_WORDS: usize = 256;

/// Granularity of one erase-and-write step of the gateware backup.
pub const BACKUP_CHUNK: usize = 65536;

/// Byte `j` (big-endian order) of the word `w`.
pub open spec fn word_be_byte(w: u32, j: int) -> u8 {
    if j == 0 {
        ((w >> 24) & 0xff) as u8
    } else if j == 1 {
        ((w >> 16) & 0xff) as u8
    } else if j == 2 {
        ((w >> 8) & 0xff) as u8
    } else {
        (w & 0xff) as u8
    }
}

/// `nwords` words starting at `start`, read out as big-endian bytes.
pub open spec fn words_be_bytes(ws: Seq<u32>, start: int, nwords: int) -> Seq<u8> {
    Seq::new((4 * nwords) as nat, |i: int| word_be_byte(ws[start + i / 4], i % 4))
}

/// A byte sequence packed into big-endian words.
pub open spec fn be_words_of(b: Seq<u8>) -> Seq<u32> {
    Seq::new((b.len() / 4) as nat, |a: int| be_word(b, 4 * a) as u32)
}

/// `s` with the words starting at `at` XORed against `v`.
pub open spec fn xor_words_at(s: Seq<u32>, at: int, v: Seq<u32>) -> Seq<u32> {
    Seq::new(s.len(), |i: int| if at <= i < at + v.len() { s[i] ^ v[i - at] } else { s[i] })
}

/// An all-zero word sequence of length `n`.
pub open spec fn zero_words(n: nat) -> Seq<u32> {
    Seq::new(n, |i: int| 0u32)
}

/// The pepper perturbed by the purpose code in its first byte, so the two
/// password purposes never share an effective salt.
pub open spec fn effective_salt(pepper: Seq<u8>, purpose: PasswordType) -> Seq<u8> {
    Seq::new(
        pepper.len(),
        |i: int| if i == 0 { pepper[0] ^ spec_purpose_code(purpose) } else { pepper[i] },
    )
}

/// A password clipped to the first 72 bytes the slow hash consumes.
pub open spec fn clip_password(pw: Seq<u8>) -> Seq<u8> {
    if pw.len() <= 72 {
        pw
    } else {
        pw.subrange(0, 72)
    }
}

/// What `hash_and_save_password` caches: the bcrypt hash of the clipped
/// password under the purpose-perturbed salt, expanded to 32 bytes by
/// SHA-512/256 so it can XOR-mask 256-bit secrets.
pub open spec fn derived_digest(pepper: Seq<u8>, purpose: PasswordType, pw: Seq<u8>) -> Seq<u8> {
    sha512_256_of(bcrypt_of(BCRYPT_COST, effective_salt(pepper, purpose), clip_password(pw)))
}

/// A cache region after the policy-driven purges of a suspend or of the
/// provisioning epilogue: each purpose not marked for retention has its
/// fields zeroed.
pub open spec fn cache_after_policy_purge(
    c: Seq<u8>,
    boot: PasswordRetentionPolicy,
    update: PasswordRetentionPolicy,
) -> Seq<u8> {
    let c1 = if boot == PasswordRetentionPolicy::AlwaysKeep {
        c
    } else {
        overwrite(
            c,
            purge_offset(PasswordType::Boot) as int,
            zero_bytes(purge_len(PasswordType::Boot) as nat),
        )
    };
    if update == PasswordRetentionPolicy::AlwaysKeep {
        c1
    } else {
        overwrite(
            c1,
            purge_offset(PasswordType::Update) as int,
            zero_bytes(purge_len(PasswordType::Update) as nat),
        )
    }
}

/// The staging flash region: a software-backed model of the flash service
/// the backup is written through. A write that covers `fault_at` fails, so
/// storage-layer failure stays reproducible.
pub struct FlashRegion {
    pub data: Vec<u8>,
    pub fault_at: Option<usize>,
}

impl FlashRegion {
    /// Whether a write of `n` bytes at `addr` hits the injected fault.
    pub open spec fn fails(self, addr: int, n: int) -> bool {
        match self.fault_at {
            Some(f) => addr <= f < addr + n,
            None => false,
        }
    }

    /// Erases and writes one destination range. On failure the range is
    /// left unwritten and nothing else is touched.
    pub fn patch(&mut self, addr: usize, src: &[u8]) -> (r: Result<(), ()>)
        requires
            addr + src@.len() <= old(self).data@.len(),
        ensures
            final(self).fault_at == old(self).fault_at,
            final(self).data@.len() == old(self).data@.len(),
            r.is_ok() == !old(self).fails(addr as int, src@.len() as int),
            r.is_ok() ==> final(self).data@ == overwrite(old(self).data@, addr as int, src@),
            r.is_err() ==> final(self).data@ == old(self).data@,
    {
        let total = self.data.len();
        match self.fault_at {
            Some(f) => {
                if addr <= f && f < addr + src.len() {
                    return Err(());
                }
            },
            None => {},
        }
        write_range(&mut self.data, addr, src);
        Ok(())
    }
}

pub struct RootKeys {
    keyrom: Vec<u32>,
    gateware: Vec<u8>,
    staging: FlashRegion,
    loader_code: Vec<u8>,
    kernel: Vec<u8>,
    sensitive_data: Vec<u32>,
    pass_cache: PasswordCache,
    boot_password_policy: PasswordRetentionPolicy,
    update_password_policy: PasswordRetentionPolicy,
    cur_password_type: Option<PasswordType>,
    suspend_blocked: bool,
    loader_signature: Option<SignatureInFlash>,
    kernel_signature: Option<SignatureInFlash>,
}

impl RootKeys {
    pub closed spec fn keyrom_words(self) -> Seq<u32> {
        self.keyrom@
    }

    pub closed spec fn gateware_bytes(self) -> Seq<u8> {
        self.gateware@
    }

    pub closed spec fn staging_bytes(self) -> Seq<u8> {
        self.staging.data@
    }

    pub closed spec fn staging_fault(self) -> Option<usize> {
        self.staging.fault_at
    }

    pub closed spec fn loader_bytes(self) -> Seq<u8> {
        self.loader_code@
    }

    pub closed spec fn kernel_bytes(self) -> Seq<u8> {
        self.kernel@
    }

    /// The staging copy of the key store.
    pub closed spec fn staged_words(self) -> Seq<u32> {
        self.sensitive_data@
    }

    pub closed spec fn cache_bytes(self) -> Seq<u8> {
        self.pass_cache.bytes()
    }

    pub closed spec fn policy_boot(self) -> PasswordRetentionPolicy {
        self.boot_password_policy
    }

    pub closed spec fn policy_update(self) -> PasswordRetentionPolicy {
        self.update_password_policy
    }

    pub closed spec fn cur_pw_type(self) -> Option<PasswordType> {
        self.cur_password_type
    }

    pub closed spec fn suspend_is_blocked(self) -> bool {
        self.suspend_blocked
    }

    pub closed spec fn loader_sig(self) -> Option<SignatureInFlash> {
        self.loader_signature
    }

    pub closed spec fn kernel_sig(self) -> Option<SignatureInFlash> {
        self.kernel_signature
    }

    pub open spec fn wf(self) -> bool {
        &&& self.keyrom_words().len() == KEYROM_WORDS
        &&& self.staged_words().len() == KEYROM_WORDS
        &&& self.cache_bytes().len() == CACHE_LEN
        &&& self.staging_bytes().len() == self.gateware_bytes().len()
    }

    /// The regions the core never writes: the key store, the live gateware,
    /// and the boot images.
    pub open spec fn same_read_only_regions(self, other: RootKeys) -> bool {
        &&& self.keyrom_words() == other.keyrom_words()
        &&& self.gateware_bytes() == other.gateware_bytes()
        &&& self.loader_bytes() == other.loader_bytes()
        &&& self.kernel_bytes() == other.kernel_bytes()
    }

    pub open spec fn same_policies(self, other: RootKeys) -> bool {
        &&& self.policy_boot() == other.policy_boot()
        &&& self.policy_update() == other.policy_update()
        &&& self.cur_pw_type() == other.cur_pw_type()
        &&& self.suspend_is_blocked() == other.suspend_is_blocked()
    }

    pub open spec fn same_signatures(self, other: RootKeys) -> bool {
        &&& self.loader_sig() == other.loader_sig()
        &&& self.kernel_sig() == other.kernel_sig()
    }

    pub open spec fn same_staging_flash(self, other: RootKeys) -> bool {
        &&& self.staging_bytes() == other.staging_bytes()
        &&& self.staging_fault() == other.staging_fault()
    }

    /// Whether the "initialized" bit of the key store's packed configuration
    /// word is set.
    pub open spec fn spec_is_initialized(self) -> bool {
        self.keyrom_words()[KEYROM_CONFIG as int] & initialized_mask() != 0
    }

    /// The salt for password derivation: the pepper of the committed key
    /// store once initialized, of the staging copy before that.
    pub open spec fn pepper_bytes(self) -> Seq<u8> {
        if self.spec_is_initialized() {
            words_be_bytes(self.keyrom_words(), KEYROM_PEPPER as int, 4)
        } else {
            words_be_bytes(self.staged_words(), KEYROM_PEPPER as int, 4)
        }
    }

    /// Takes exclusive ownership of the injected stores. The password cache
    /// and the staging copy start zeroed; the boot password is kept across
    /// suspends by default while the update password is always purged.
    pub fn new(
        keyrom: Vec<u32>,
        gateware: Vec<u8>,
        staging: FlashRegion,
        loader_code: Vec<u8>,
        kernel: Vec<u8>,
    ) -> (r: RootKeys)
        requires
            keyrom@.len() == KEYROM_WORDS,
            staging.data@.len() == gateware@.len(),
        ensures
            r.wf(),
            r.keyrom_words() == keyrom@,
            r.gateware_bytes() == gateware@,
            r.staging_bytes() == staging.data@,
            r.staging_fault() == staging.fault_at,
            r.loader_bytes() == loader_code@,
            r.kernel_bytes() == kernel@,
            r.staged_words() == zero_words(KEYROM_WORDS as nat),
            r.cache_bytes() == zero_bytes(CACHE_LEN as nat),
            r.policy_boot() == PasswordRetentionPolicy::AlwaysKeep,
            r.policy_update() == PasswordRetentionPolicy::AlwaysPurge,
            r.cur_pw_type() == None::<PasswordType>,
            !r.suspend_is_blocked(),
            r.loader_sig() == None::<SignatureInFlash>,
            r.kernel_sig() == None::<SignatureInFlash>,
    {
        let mut sensitive: Vec<u32> = Vec::new();
        let mut i: usize = 0;
        while i < KEYROM_WORDS
            invariant
                i <= KEYROM_WORDS,
                sensitive@.len() == i,
                forall|k: int| 0 <= k < i ==> sensitive@[k] == 0u32,
            decreases KEYROM_WORDS - i,
        {
            sensitive.push(0);
            i += 1;
        }
        proof {
            assert(sensitive@ =~= zero_words(KEYROM_WORDS as nat));
        }
        RootKeys {
            keyrom,
            gateware,
            staging,
            loader_code,
            kernel,
            sensitive_data: sensitive,
            pass_cache: PasswordCache::new(),
            boot_password_policy: PasswordRetentionPolicy::AlwaysKeep,
            update_password_policy: PasswordRetentionPolicy::AlwaysPurge,
            cur_password_type: None,
            suspend_blocked: false,
            loader_signature: None,
            kernel_signature: None,
        }
    }

    /// Tracks which password the UX layer is currently requesting.
    pub fn set_ux_password_type(&mut self, cur_type: Option<PasswordType>)
        ensures
            final(self).cur_pw_type() == cur_type,
            final(self).same_read_only_regions(*old(self)),
            final(self).same_staging_flash(*old(self)),
            final(self).same_signatures(*old(self)),
            final(self).staged_words() == old(self).staged_words(),
            final(self).cache_bytes() == old(self).cache_bytes(),
            final(self).policy_boot() == old(self).policy_boot(),
            final(self).policy_update() == old(self).policy_update(),
            final(self).suspend_is_blocked() == old(self).suspend_is_blocked(),
    {
        self.cur_password_type = cur_type;
    }

    /// Which password request is in progress.
    pub fn get_ux_password_type(&self) -> (r: Option<PasswordType>)
        ensures
            r == self.cur_pw_type(),
    {
        self.cur_password_type
    }

    /// Sets the retention policy of `pw_type`; no stated policy falls back
    /// to always purging. The pending UX password type is cleared: the
    /// session that named the purpose is over.
    pub fn update_policy(&mut self, pw_type: PasswordType, policy: Option<PasswordRetentionPolicy>)
        ensures
            final(self).policy_boot() == (if pw_type == PasswordType::Boot {
                policy_or_default(policy)
            } else {
                old(self).policy_boot()
            }),
            final(self).policy_update() == (if pw_type == PasswordType::Update {
                policy_or_default(policy)
            } else {
                old(self).policy_update()
            }),
            final(self).cur_pw_type() == None::<PasswordType>,
            final(self).same_read_only_regions(*old(self)),
            final(self).same_staging_flash(*old(self)),
            final(self).same_signatures(*old(self)),
            final(self).staged_words() == old(self).staged_words(),
            final(self).cache_bytes() == old(self).cache_bytes(),
            final(self).suspend_is_blocked() == old(self).suspend_is_blocked(),
    {
        let p = match policy {
            Some(p) => p,
            None => PasswordRetentionPolicy::AlwaysPurge,
        };
        match pw_type {
            PasswordType::Boot => {
                self.boot_password_policy = p;
            },
            PasswordType::Update => {
                self.update_password_policy = p;
            },
        }
        self.cur_password_type = None;
    }

    /// Zeroes the cached digest of `pw_type` and its validity word; for the
    /// update purpose the cached FPGA key goes too.
    pub fn purge_password(&mut self, pw_type: PasswordType)
        requires
            old(self).wf(),
        ensures
            final(self).wf(),
            final(self).cache_bytes() == overwrite(
                old(self).cache_bytes(),
                purge_offset(pw_type) as int,
                zero_bytes(purge_len(pw_type) as nat),
            ),
            final(self).same_read_only_regions(*old(self)),
            final(self).same_staging_flash(*old(self)),
            final(self).same_policies(*old(self)),
            final(self).same_signatures(*old(self)),
            final(self).staged_words() == old(self).staged_words(),
    {
        self.pass_cache.purge(pw_type);
    }

    /// Zeroes the whole staging copy of the key store, behind a barrier.
    fn purge_sensitive_data(&mut self)
        requires
            old(self).wf(),
        ensures
            final(self).wf(),
            final(self).staged_words() == zero_words(old(self).staged_words().len()),
            final(self).cache_bytes() == old(self).cache_bytes(),
            final(self).same_read_only_regions(*old(self)),
            final(self).same_staging_flash(*old(self)),
            final(self).same_policies(*old(self)),
            final(self).same_signatures(*old(self)),
    {
        let n = self.sensitive_data.len();
        let mut i: usize = 0;
        while i < n
            invariant
                i <= n,
                self.sensitive_data@.len() == n,
                forall|k: int| 0 <= k < i ==> self.sensitive_data@[k] == 0u32,
                self.keyrom@ == old(self).keyrom@,
                self.gateware@ == old(self).gateware@,
                self.staging.data@ == old(self).staging.data@,
                self.staging.fault_at == old(self).staging.fault_at,
                self.loader_code@ == old(self).loader_code@,
                self.kernel@ == old(self).kernel@,
                self.pass_cache == old(self).pass_cache,
                self.boot_password_policy == old(self).boot_password_policy,
                self.update_password_policy == old(self).update_password_policy,
                self.cur_password_type == old(self).cur_password_type,
                self.suspend_blocked == old(self).suspend_blocked,
                self.loader_signature == old(self).loader_signature,
                self.kernel_signature == old(self).kernel_signature,
            decreases n - i,
        {
            self.sensitive_data.set(i, 0);
            i += 1;
        }
        barrier();
        proof {
            assert(self.sensitive_data@ =~= zero_words(old(self).sensitive_data@.len()));
        }
    }

    /// A suspend may hand the device to an attacker: every password whose
    /// policy is not to keep it is purged, and the staging copy always is.
    pub fn suspend(&mut self)
        requires
            old(self).wf(),
        ensures
            final(self).wf(),
            final(self).cache_bytes() == cache_after_policy_purge(
                old(self).cache_bytes(),
                old(self).policy_boot(),
                old(self).policy_update(),
            ),
            final(self).staged_words() == zero_words(old(self).staged_words().len()),
            final(self).same_read_only_regions(*old(self)),
            final(self).same_staging_flash(*old(self)),
            final(self).same_policies(*old(self)),
            final(self).same_signatures(*old(self)),
    {
        match self.boot_password_policy {
            PasswordRetentionPolicy::AlwaysKeep => {},
            _ => {
                self.purge_password(PasswordType::Boot);
            },
        }
        match self.update_password_policy {
            PasswordRetentionPolicy::AlwaysKeep => {},
            _ => {
                self.purge_password(PasswordType::Update);
            },
        }
        self.purge_sensitive_data();
    }

    /// Resumption never reconstructs purged state; a workflow that needed a
    /// purged secret must restart.
    pub fn resume(&mut self)
        ensures
            *final(self) == *old(self),
    {
    }

    pub fn is_initialized(&self) -> (r: bool)
        requires
            self.wf(),
        ensures
            r == self.spec_is_initialized(),
    {
        let config = self.keyrom[KEYROM_CONFIG];
        let field = config_initialized();
        let mask = field.ms(1);
        proof {
            assert(1u32 << 1 == 2u32) by (bit_vector);
            assert(1u32 & 1u32 == 1u32) by (bit_vector);
        }
        config & mask != 0
    }

    /// Reads a 256-bit key at word offset `index` of the key store.
    pub fn read_key_256(&self, index: usize) -> (r: Vec<u8>)
        requires
            self.wf(),
            index + 8 <= KEYROM_WORDS,
        ensures
            r@ == words_be_bytes(self.keyrom_words(), index as int, 8),
            r@.len() == 32,
    {
        words_be_bytes_exec(&self.keyrom, index, 8)
    }

    /// Reads a 128-bit key at word offset `index` of the key store.
    pub fn read_key_128(&self, index: usize) -> (r: Vec<u8>)
        requires
            self.wf(),
            index + 4 <= KEYROM_WORDS,
        ensures
            r@ == words_be_bytes(self.keyrom_words(), index as int, 4),
            r@.len() == 16,
    {
        words_be_bytes_exec(&self.keyrom, index, 4)
    }

    /// The salt for the slow password hash. Before the key store is
    /// initialized the pepper lives only in the staging copy, which
    /// `setup_key_init` must have provisioned; afterwards it is read from
    /// the committed key store.
    fn get_salt(&self) -> (r: Vec<u8>)
        requires
            self.wf(),
        ensures
            r@ == self.pepper_bytes(),
            r@.len() == 16,
    {
        if !self.is_initialized() {
            words_be_bytes_exec(&self.sensitive_data, KEYROM_PEPPER, 4)
        } else {
            self.read_key_128(KEYROM_PEPPER)
        }
    }

    /// Derives 32-byte key material from a plaintext password and caches it
    /// under `pw_type`: bcrypt over the first 72 bytes with the
    /// purpose-perturbed salt, expanded by SHA-512/256. No plaintext
    /// persists after this call; only the one-way digest is cached.
    pub fn hash_and_save_password(&mut self, pw_type: PasswordType, pw: &[u8])
        requires
            old(self).wf(),
            1 <= pw@.len(),
        ensures
            final(self).wf(),
            final(self).cache_bytes() == overwrite(
                overwrite(
                    old(self).cache_bytes(),
                    digest_offset(pw_type) as int,
                    derived_digest(old(self).pepper_bytes(), pw_type, pw@),
                ),
                valid_offset(pw_type) as int,
                valid_flag(),
            ),
            final(self).same_read_only_regions(*old(self)),
            final(self).same_staging_flash(*old(self)),
            final(self).same_policies(*old(self)),
            final(self).same_signatures(*old(self)),
            final(self).staged_words() == old(self).staged_words(),
    {
        let mut salt = self.get_salt();
        let code = purpose_code(pw_type);
        let s0 = salt[0];
        salt.set(0, s0 ^ code);
        proof {
            assert(salt@ =~= effective_salt(old(self).pepper_bytes(), pw_type));
        }
        let clipped = if pw.len() > 72 {
            take_range(pw, 0, 72)
        } else {
            take_range(pw, 0, pw.len())
        };
        proof {
            assert(clipped@ =~= clip_password(pw@));
        }
        let hashed = bcrypt_hash(BCRYPT_COST, salt.as_slice(), clipped.as_slice());
        let digest = sha512_256(hashed.as_slice());
        self.pass_cache.set_digest(pw_type, digest.as_slice());
    }

    /// A copy of the whole password cache, so tests and the UX layer can
    /// inspect what is resident.
    pub fn cache_snapshot(&self) -> (r: Vec<u8>)
        requires
            self.wf(),
        ensures
            r@ == self.cache_bytes(),
    {
        self.pass_cache.snapshot()
    }

    /// A copy of the staging copy of the key store.
    pub fn staged_snapshot(&self) -> (r: Vec<u32>)
        requires
            self.wf(),
        ensures
            r@ == self.staged_words(),
    {
        copy_words(&self.sensitive_data)
    }

    /// A copy of the staging flash region's contents.
    pub fn staging_flash_snapshot(&self) -> (r: Vec<u8>)
        ensures
            r@ == self.staging_bytes(),
    {
        take_range(self.staging.data.as_slice(), 0, self.staging.data.len())
    }

    /// A copy of the live gateware region.
    pub fn gateware_snapshot(&self) -> (r: Vec<u8>)
        ensures
            r@ == self.gateware_bytes(),
    {
        take_range(self.gateware.as_slice(), 0, self.gateware.len())
    }

    /// A copy of the key store words.
    pub fn keyrom_snapshot(&self) -> (r: Vec<u32>)
        ensures
            r@ == self.keyrom_words(),
    {
        copy_words(&self.keyrom)
    }

    /// The cached digest of the boot password.
    pub open spec fn boot_pw_digest(self) -> Seq<u8> {
        self.cache_bytes().subrange(CACHE_BOOT_PW as int, CACHE_BOOT_PW as int + 32)
    }

    /// The cached digest of the update password.
    pub open spec fn update_pw_digest(self) -> Seq<u8> {
        self.cache_bytes().subrange(CACHE_UPDATE_PW as int, CACHE_UPDATE_PW as int + 32)
    }

    pub open spec fn boot_pw_valid(self) -> bool {
        self.cache_bytes()[CACHE_BOOT_VALID as int] != 0
    }

    pub open spec fn update_pw_valid(self) -> bool {
        self.cache_bytes()[CACHE_UPDATE_VALID as int] != 0
    }

    /// When a provisioning run succeeds: the backup hits no storage fault,
    /// the gateware parses, its encrypted region is large enough to hold the
    /// header and the trailing digest region, the header decrypts to the
    /// sentinel under the staged FPGA key, and the image passes its own
    /// self-check.
    pub open spec fn init_success(self) -> bool {
        let key = words_be_bytes(self.staged_words(), KEYROM_FPGA_KEY as int, 8);
        let gw = self.gateware_bytes();
        &&& !backup_fails(self.staging_fault(), gw.len() as int)
        &&& match parse_bitstream(gw) {
            Some(p) => {
                let iv = flip_seq(gw.subrange(p.0, p.0 + 16));
                let ct = gw.subrange(p.1, p.1 + p.2);
                &&& ct.len() >= 544
                &&& header_sentinel_ok(key, iv, ct)
                &&& gateware_verifies(key, iv, ct)
            },
            None => false,
        }
    }

    /// When a self-test run succeeds, under the committed key store's own
    /// FPGA key.
    pub open spec fn test_success(self) -> bool {
        let key = words_be_bytes(self.keyrom_words(), KEYROM_FPGA_KEY as int, 8);
        let gw = self.gateware_bytes();
        match parse_bitstream(gw) {
            Some(p) => {
                let iv = flip_seq(gw.subrange(p.0, p.0 + 16));
                let ct = gw.subrange(p.1, p.1 + p.2);
                &&& ct.len() >= 544
                &&& header_sentinel_ok(key, iv, ct)
                &&& gateware_verifies(key, iv, ct)
            },
            None => false,
        }
    }

    /// Sets up a key-initialization run: blocks suspend for the duration of
    /// the run, copies the whole key store into the staging copy, and
    /// provisions the pepper field from fresh entropy so passwords can be
    /// derived before the store is committed.
    pub fn setup_key_init(&mut self, pepper_entropy: &[u32])
        requires
            old(self).wf(),
            pepper_entropy@.len() == 4,
        ensures
            final(self).wf(),
            final(self).suspend_is_blocked(),
            final(self).staged_words() == overwrite(
                old(self).keyrom_words(),
                KEYROM_PEPPER as int,
                pepper_entropy@,
            ),
            final(self).cache_bytes() == old(self).cache_bytes(),
            final(self).same_read_only_regions(*old(self)),
            final(self).same_staging_flash(*old(self)),
            final(self).same_signatures(*old(self)),
            final(self).policy_boot() == old(self).policy_boot(),
            final(self).policy_update() == old(self).policy_update(),
            final(self).cur_pw_type() == old(self).cur_pw_type(),
    {
        self.suspend_blocked = true;
        let mut addr: usize = 0;
        while addr < KEYROM_WORDS
            invariant
                addr <= KEYROM_WORDS,
                self.keyrom@.len() == KEYROM_WORDS,
                self.sensitive_data@.len() == KEYROM_WORDS,
                forall|k: int| 0 <= k < addr ==> self.sensitive_data@[k] == self.keyrom@[k],
                self.keyrom@ == old(self).keyrom@,
                self.gateware@ == old(self).gateware@,
                self.staging.data@ == old(self).staging.data@,
                self.staging.fault_at == old(self).staging.fault_at,
                self.loader_code@ == old(self).loader_code@,
                self.kernel@ == old(self).kernel@,
                self.pass_cache == old(self).pass_cache,
                self.boot_password_policy == old(self).boot_password_policy,
                self.update_password_policy == old(self).update_password_policy,
                self.cur_password_type == old(self).cur_password_type,
                self.suspend_blocked,
                self.loader_signature == old(self).loader_signature,
                self.kernel_signature == old(self).kernel_signature,
            decreases KEYROM_WORDS - addr,
        {
            let w = self.keyrom[addr];
            self.sensitive_data.set(addr, w);
            addr += 1;
        }
        let mut j: usize = 0;
        while j < 4
            invariant
                j <= 4,
                pepper_entropy@.len() == 4,
                self.sensitive_data@.len() == KEYROM_WORDS,
                forall|k: int| 0 <= k < j ==> self.sensitive_data@[KEYROM_PEPPER + k]
                    == pepper_entropy@[k],
                forall|k: int| 0 <= k < KEYROM_WORDS && !(KEYROM_PEPPER <= k < KEYROM_PEPPER + j)
                    ==> self.sensitive_data@[k] == self.keyrom@[k],
                self.keyrom@ == old(self).keyrom@,
                self.gateware@ == old(self).gateware@,
                self.staging.data@ == old(self).staging.data@,
                self.staging.fault_at == old(self).staging.fault_at,
                self.loader_code@ == old(self).loader_code@,
                self.kernel@ == old(self).kernel@,
                self.pass_cache == old(self).pass_cache,
                self.boot_password_policy == old(self).boot_password_policy,
                self.update_password_policy == old(self).update_password_policy,
                self.cur_password_type == old(self).cur_password_type,
                self.suspend_blocked,
                self.loader_signature == old(self).loader_signature,
                self.kernel_signature == old(self).kernel_signature,
            decreases 4 - j,
        {
            self.sensitive_data.set(KEYROM_PEPPER + j, pepper_entropy[j]);
            j += 1;
        }
        proof {
            assert(self.sensitive_data@ =~= overwrite(
                old(self).keyrom@,
                KEYROM_PEPPER as int,
                pepper_entropy@,
            ));
        }
    }

    /// Signs the loader image: the loader region past its reserved
    /// signature sector, followed by the auxiliary font data, under the
    /// Ed25519ph scheme. Returns the signature and the exact signed length
    /// (the region, the font data, and the two appended descriptor words).
    pub fn sign_loader(&self, keypair_seed: &[u8], font_data: &[u8]) -> (r: (Vec<u8>, u32))
        requires
            self.wf(),
            keypair_seed@.len() == 32,
            self.loader_bytes().len() >= SIGBLOCK_SIZE as int,
            self.loader_bytes().len() - (SIGBLOCK_SIZE as int) + font_data@.len() + 8
                <= u32::MAX,
        ensures
            r.0@ == ed25519ph_signature_of(
                keypair_seed@,
                self.loader_bytes().subrange(
                    SIGBLOCK_SIZE as int,
                    self.loader_bytes().len() as int,
                ) + font_data@,
            ),
            r.0@.len() == 64,
            r.1 == self.loader_bytes().len() - (SIGBLOCK_SIZE as int) + font_data@.len() + 8,
    {
        let sigblock = SIGBLOCK_SIZE as usize;
        let loader_len = self.loader_code.len();
        let mut message = take_range(self.loader_code.as_slice(), sigblock, loader_len - sigblock);
        append_bytes(&mut message, font_data);
        let signature = ed25519_sign_prehashed(keypair_seed, message.as_slice());
        let signed_len = loader_len - sigblock + font_data.len() + 8;
        (signature, signed_len as u32)
    }

    /// Signs the kernel image: its whole region past the reserved signature
    /// sector, since no external length field is trusted.
    pub fn sign_kernel(&self, keypair_seed: &[u8]) -> (r: (Vec<u8>, u32))
        requires
            self.wf(),
            keypair_seed@.len() == 32,
            self.kernel_bytes().len() >= SIGBLOCK_SIZE as int,
            self.kernel_bytes().len() - (SIGBLOCK_SIZE as int) <= u32::MAX,
        ensures
            r.0@ == ed25519ph_signature_of(
                keypair_seed@,
                self.kernel_bytes().subrange(
                    SIGBLOCK_SIZE as int,
                    self.kernel_bytes().len() as int,
                ),
            ),
            r.0@.len() == 64,
            r.1 == self.kernel_bytes().len() - (SIGBLOCK_SIZE as int),
    {
        let sigblock = SIGBLOCK_SIZE as usize;
        let kernel_len = self.kernel.len();
        let message = take_range(self.kernel.as_slice(), sigblock, kernel_len - sigblock);
        let signature = ed25519_sign_prehashed(keypair_seed, message.as_slice());
        (signature, (kernel_len - sigblock) as u32)
    }

    /// Backs up the live gateware into the staging flash region in
    /// fixed-size chunks, each erased and written on its own, before any
    /// patching. Only the staging region is touched; the live boot region
    /// stays as it is. Any storage failure aborts the run.
    pub fn make_gateware_backup(&mut self) -> (r: Result<(), RootkeyResult>)
        requires
            old(self).wf(),
        ensures
            final(self).wf(),
            final(self).same_read_only_regions(*old(self)),
            final(self).same_policies(*old(self)),
            final(self).same_signatures(*old(self)),
            final(self).staged_words() == old(self).staged_words(),
            final(self).cache_bytes() == old(self).cache_bytes(),
            final(self).staging_fault() == old(self).staging_fault(),
            final(self).staging_bytes().len() == old(self).staging_bytes().len(),
            r.is_ok() == !backup_fails(
                old(self).staging_fault(),
                old(self).gateware_bytes().len() as int,
            ),
            r.is_ok() ==> final(self).staging_bytes() == old(self).gateware_bytes(),
            r.is_err() ==> r == Err::<(), RootkeyResult>(RootkeyResult::FlashError),
    {
        let len = self.gateware.len();
        let mut off: usize = 0;
        while off < len
            invariant
                off <= len,
                len == self.gateware@.len(),
                self.staging.data@.len() == len,
                self.staging.data@.len() == old(self).staging.data@.len(),
                old(self).wf(),
                forall|k: int| 0 <= k < off ==> self.staging.data@[k] == self.gateware@[k],
                match self.staging.fault_at {
                    Some(f) => f >= off,
                    None => true,
                },
                self.keyrom@ == old(self).keyrom@,
                self.gateware@ == old(self).gateware@,
                self.staging.fault_at == old(self).staging.fault_at,
                self.loader_code@ == old(self).loader_code@,
                self.kernel@ == old(self).kernel@,
                self.sensitive_data@ == old(self).sensitive_data@,
                self.pass_cache == old(self).pass_cache,
                self.boot_password_policy == old(self).boot_password_policy,
                self.update_password_policy == old(self).update_password_policy,
                self.cur_password_type == old(self).cur_password_type,
                self.suspend_blocked == old(self).suspend_blocked,
                self.loader_signature == old(self).loader_signature,
                self.kernel_signature == old(self).kernel_signature,
            decreases len - off,
        {
            let m = if len - off < BACKUP_CHUNK {
                len - off
            } else {
                BACKUP_CHUNK
            };
            let chunk = take_range(self.gateware.as_slice(), off, m);
            match self.staging.patch(off, chunk.as_slice()) {
                Ok(_) => {},
                Err(_) => {
                    return Err(RootkeyResult::FlashError);
                },
            }
            off += m;
        }
        proof {
            assert(self.staging.data@ =~= self.gateware@);
        }
        Ok(())
    }

    /// The key-integrity gate of the patch step: decrypts the leading
    /// 64-byte header and checks the well-known sentinel pattern in its
    /// second half. A wrong key cannot produce the sentinel, and nothing may
    /// be patched after such a failure. The per-frame patch table itself is
    /// an externally supplied configuration artifact.
    pub fn patch_keys(&self, oracle: &BitstreamOracle) -> (r: Result<(), RootkeyResult>)
        requires
            oracle.wf(),
            oracle.ct_bytes().len() >= 64,
        ensures
            r.is_ok() == header_sentinel_ok(
                oracle.key_bytes(),
                oracle.iv_bytes(),
                oracle.ct_bytes(),
            ),
            r.is_err() ==> r == Err::<(), RootkeyResult>(RootkeyResult::KeyError),
    {
        proof {
            lemma_round_up_block_exact(64);
        }
        let mut hmac_header = zero_vec(64);
        oracle.decrypt(0, &mut hmac_header);
        let mut pass = true;
        let mut i: usize = 32;
        while i < 64
            invariant
                32 <= i <= 64,
                hmac_header@.len() == 64,
                hmac_header@ == plain_range(
                    oracle.key_bytes(),
                    oracle.iv_bytes(),
                    oracle.ct_bytes(),
                    0,
                    64,
                ),
                pass == (forall|k: int| 32 <= k < i ==> hmac_header@[k] == HEADER_SENTINEL),
            decreases 64 - i,
        {
            if hmac_header[i] != HEADER_SENTINEL {
                pass = false;
            }
            i += 1;
        }
        if pass {
            Ok(())
        } else {
            Err(RootkeyResult::KeyError)
        }
    }

    /// The two-stage digest protocol that confirms a patched, encrypted
    /// image is self-consistent: recover the embedded authentication code
    /// from the leading header, hash the decrypted bit-order-transformed
    /// body, combine the masked code, the mask and that digest into a second
    /// digest, and compare it byte for byte against the reference digest in
    /// the image's last cipher block.
    pub fn verify_gateware(&self, oracle: &BitstreamOracle) -> (r: Result<(), RootkeyResult>)
        requires
            oracle.wf(),
            oracle.ct_bytes().len() >= 544,
        ensures
            r.is_ok() == gateware_verifies(
                oracle.key_bytes(),
                oracle.iv_bytes(),
                oracle.ct_bytes(),
            ),
            r.is_err() ==> r == Err::<(), RootkeyResult>(RootkeyResult::IntegrityError),
    {
        let ghost key = oracle.key_bytes();
        let ghost iv = oracle.iv_bytes();
        let ghost ct = oracle.ct_bytes();
        let ctlen = oracle.ciphertext_len();
        proof {
            lemma_round_up_block_exact(64);
        }
        let mut hmac_area = zero_vec(64);
        oracle.decrypt(0, &mut hmac_area);
        let first = take_range(hmac_area.as_slice(), 0, 32);
        let second = take_range(hmac_area.as_slice(), 32, 32);
        let hmac_code = xor_bytes_exec(first.as_slice(), second.as_slice());
        proof {
            assert(hmac_code@ =~= gw_hmac_code(key, iv, ct));
        }
        let tot_len = ctlen - VERIFY_TRAILER;
        proof {
            lemma_sub_mod_noop(ctlen as int, VERIFY_TRAILER as int, 16);
            assert(tot_len as int % 16 == 0);
            lemma_round_up_block_exact(tot_len as int);
            lemma_mod16_to_mod4(tot_len as int);
        }
        let mut body = zero_vec(tot_len);
        oracle.decrypt(0, &mut body);
        let flipped = bitflip(body.as_slice());
        let h1 = sha256(flipped.as_slice());
        proof {
            assert(h1@ == gw_body_digest(key, iv, ct));
        }
        let mut mask: Vec<u8> = Vec::new();
        let mut mi: usize = 0;
        while mi < 32
            invariant
                mi <= 32,
                mask@.len() == mi,
                forall|k: int| 0 <= k < mi ==> mask@[k] == 0x3au8,
            decreases 32 - mi,
        {
            mask.push(0x3a);
            mi += 1;
        }
        proof {
            assert(mask@ =~= footer_mask());
        }
        let masked = xor_bytes_exec(hmac_code.as_slice(), mask.as_slice());
        let masked_flip = bitflip(masked.as_slice());
        let mask_flip = bitflip(mask.as_slice());
        let mut h2_input: Vec<u8> = Vec::new();
        append_bytes(&mut h2_input, masked_flip.as_slice());
        append_bytes(&mut h2_input, mask_flip.as_slice());
        append_bytes(&mut h2_input, h1.as_slice());
        proof {
            assert(h2_input@ =~= flip_seq(xor_bytes(gw_hmac_code(key, iv, ct), footer_mask()))
                + flip_seq(footer_mask()) + gw_body_digest(key, iv, ct));
        }
        let h2 = sha256(h2_input.as_slice());
        proof {
            assert(h2@ == gw_check_digest(key, iv, ct));
            lemma_sub_mod_noop(ctlen as int, 32, 16);
            lemma_round_up_block_exact(32);
        }
        let mut ref_flipped = zero_vec(32);
        oracle.decrypt(ctlen - 32, &mut ref_flipped);
        let ref_digest = bitflip(ref_flipped.as_slice());
        proof {
            assert(ref_digest@ == gw_ref_digest(key, iv, ct));
        }
        let mut matching = true;
        let mut i: usize = 0;
        while i < 32
            invariant
                i <= 32,
                h2@.len() == 32,
                ref_digest@.len() == 32,
                matching == (forall|k: int| 0 <= k < i ==> h2@[k] == ref_digest@[k]),
            decreases 32 - i,
        {
            if h2[i] != ref_digest[i] {
                matching = false;
            }
            i += 1;
        }
        if matching {
            proof {
                assert(h2@ =~= ref_digest@);
            }
            Ok(())
        } else {
            proof {
                assert(h2@ != ref_digest@) by {
                    if h2@ == ref_digest@ {
                        assert(forall|k: int| 0 <= k < 32 ==> h2@[k] == ref_digest@[k]);
                    }
                }
            }
            Err(RootkeyResult::IntegrityError)
        }
    }

    /// The key-initialization run. The staging copy must have been set up
    /// (suspend blocked, pepper provisioned) and both password digests
    /// derived. Takes fresh entropy for the signing keypair seed and the
    /// boot key, and the auxiliary font data that the loader signature
    /// covers. Stages the signing keypair (private key masked by the update
    /// digest), the boot key (masked by the boot digest), signs the loader
    /// and kernel, caches then masks the FPGA key, sets the initialized bit,
    /// backs up the gateware, and runs the check-then-patch gate and the
    /// integrity verifier over the backed-up image. Returns true only if
    /// every stage succeeded: only then is a reboot into the new image safe.
    pub fn do_key_init(
        &mut self,
        keypair_seed: &[u8],
        boot_key_entropy: &[u8],
        font_data: &[u8],
    ) -> (r: bool)
        requires
            old(self).wf(),
            old(self).suspend_is_blocked(),
            old(self).boot_pw_valid(),
            old(self).update_pw_valid(),
            keypair_seed@.len() == 32,
            boot_key_entropy@.len() == 32,
            old(self).loader_bytes().len() >= SIGBLOCK_SIZE as int,
            old(self).loader_bytes().len() - (SIGBLOCK_SIZE as int) + font_data@.len() + 8
                <= u32::MAX,
            old(self).kernel_bytes().len() >= SIGBLOCK_SIZE as int,
            old(self).kernel_bytes().len() - (SIGBLOCK_SIZE as int) <= u32::MAX,
        ensures
            final(self).wf(),
            final(self).same_read_only_regions(*old(self)),
            final(self).same_policies(*old(self)),
            final(self).staging_fault() == old(self).staging_fault(),
            final(self).staged_words() == staged_after_init(
                old(self).staged_words(),
                ed25519_public_of(keypair_seed@),
                xor_bytes(keypair_seed@, old(self).update_pw_digest()),
                xor_bytes(boot_key_entropy@, old(self).boot_pw_digest()),
                old(self).update_pw_digest(),
            ),
            final(self).cache_bytes() == overwrite(
                overwrite(
                    old(self).cache_bytes(),
                    CACHE_FPGA_KEY as int,
                    words_be_bytes(old(self).staged_words(), KEYROM_FPGA_KEY as int, 8),
                ),
                CACHE_FPGA_VALID as int,
                valid_flag(),
            ),
            r == old(self).init_success(),
            r ==> final(self).staging_bytes() == old(self).gateware_bytes(),
            final(self).loader_sig().is_some(),
            final(self).loader_sig().unwrap().version == 1,
            final(self).loader_sig().unwrap().signed_len == old(self).loader_bytes().len() - (
            SIGBLOCK_SIZE as int) + font_data@.len() + 8,
            final(self).loader_sig().unwrap().signature@ == ed25519ph_signature_of(
                keypair_seed@,
                old(self).loader_bytes().subrange(
                    SIGBLOCK_SIZE as int,
                    old(self).loader_bytes().len() as int,
                ) + font_data@,
            ),
            final(self).kernel_sig().is_some(),
            final(self).kernel_sig().unwrap().version == 1,
            final(self).kernel_sig().unwrap().signed_len == old(self).kernel_bytes().len() - (
            SIGBLOCK_SIZE as int),
            final(self).kernel_sig().unwrap().signature@ == ed25519ph_signature_of(
                keypair_seed@,
                old(self).kernel_bytes().subrange(
                    SIGBLOCK_SIZE as int,
                    old(self).kernel_bytes().len() as int,
                ),
            ),
    {
        // Stage the public key in plaintext: it is not a secret.
        let pubkey = ed25519_public_key(keypair_seed);
        pack_be_words(&mut self.sensitive_data, KEYROM_SELFSIGN_PUBKEY, pubkey.as_slice());
        // The private key is staged XORed byte-for-byte with the update
        // digest: a one-time-pad whose key material is never reused.
        let update_digest = self.pass_cache.digest(PasswordType::Update);
        let priv_enc = xor_bytes_exec(keypair_seed, update_digest.as_slice());
        pack_be_words(&mut self.sensitive_data, KEYROM_SELFSIGN_PRIVKEY, priv_enc.as_slice());
        // The boot key is fresh entropy XORed with the boot digest; only the
        // ciphertext needs to be established at initialization.
        let boot_digest = self.pass_cache.digest(PasswordType::Boot);
        let boot_enc = xor_bytes_exec(boot_key_entropy, boot_digest.as_slice());
        pack_be_words(&mut self.sensitive_data, KEYROM_USER_KEY, boot_enc.as_slice());
        // Sign the boot chain and record signature and exact signed length.
        let (loader_sig, loader_len) = self.sign_loader(keypair_seed, font_data);
        self.loader_signature = Some(
            SignatureInFlash { version: 1, signed_len: loader_len, signature: loader_sig },
        );
        let (kernel_sig, kernel_len) = self.sign_kernel(keypair_seed);
        self.kernel_signature = Some(
            SignatureInFlash { version: 1, signed_len: kernel_len, signature: kernel_sig },
        );
        // Cache the plaintext FPGA key for the bitstream work below, then
        // mask the staged copy with the update digest.
        let fpga_plain = words_be_bytes_exec(&self.sensitive_data, KEYROM_FPGA_KEY, 8);
        proof {
            assert forall|j: int| 0 <= j < 8 implies self.sensitive_data@[j] == old(
                self,
            ).sensitive_data@[j] by {}
            assert(fpga_plain@ =~= words_be_bytes(
                old(self).sensitive_data@,
                KEYROM_FPGA_KEY as int,
                8,
            ));
        }
        self.pass_cache.set_fpga_key(fpga_plain.as_slice());
        let update_words = be_words_vec(update_digest.as_slice());
        xor_words_range(&mut self.sensitive_data, KEYROM_FPGA_KEY, update_words.as_slice());
        // Set the initialized bit in the staged configuration word.
        let field = config_initialized();
        let mask = field.ms(1);
        proof {
            assert(1u32 << 1 == 2u32) by (bit_vector);
            assert(1u32 & 1u32 == 1u32) by (bit_vector);
            assert(mask == initialized_mask());
        }
        let cfg = self.sensitive_data[KEYROM_CONFIG];
        self.sensitive_data.set(KEYROM_CONFIG, cfg | mask);
        proof {
            assert(self.sensitive_data@ == staged_after_init(
                old(self).sensitive_data@,
                ed25519_public_of(keypair_seed@),
                xor_bytes(keypair_seed@, old(self).update_pw_digest()),
                xor_bytes(boot_key_entropy@, old(self).boot_pw_digest()),
                old(self).update_pw_digest(),
            ));
        }
        // The rollback safety net: back up the live gateware before any
        // patch. A flash failure aborts without touching the live region.
        if self.make_gateware_backup().is_err() {
            return false;
        }
        // The oracle over the gateware, under the cached FPGA key. Its key
        // material is wiped on every exit path below.
        let fpga_key = self.pass_cache.fpga_key_copy();
        proof {
            assert(fpga_key@ =~= words_be_bytes(
                old(self).sensitive_data@,
                KEYROM_FPGA_KEY as int,
                8,
            ));
        }
        let oracle_opt = BitstreamOracle::new(fpga_key.as_slice(), self.gateware.as_slice());
        match oracle_opt {
            None => false,
            Some(mut oracle) => {
                if oracle.ciphertext_len() < 544 {
                    oracle.clear();
                    return false;
                }
                if self.patch_keys(&oracle).is_err() {
                    oracle.clear();
                    return false;
                }
                if self.verify_gateware(&oracle).is_err() {
                    oracle.clear();
                    return false;
                }
                oracle.clear();
                true
            },
        }
    }

    /// A self-test of the patch gate and the integrity verifier over the
    /// live gateware, under the committed key store's own FPGA key: reloads
    /// the staging copy from the key store, caches the FPGA key, and runs
    /// the check-then-patch gate and the verifier.
    pub fn test(&mut self) -> (r: bool)
        requires
            old(self).wf(),
        ensures
            final(self).wf(),
            final(self).same_read_only_regions(*old(self)),
            final(self).same_policies(*old(self)),
            final(self).same_staging_flash(*old(self)),
            final(self).same_signatures(*old(self)),
            final(self).staged_words() == old(self).keyrom_words(),
            final(self).cache_bytes() == overwrite(
                overwrite(
                    old(self).cache_bytes(),
                    CACHE_FPGA_KEY as int,
                    words_be_bytes(old(self).keyrom_words(), KEYROM_FPGA_KEY as int, 8),
                ),
                CACHE_FPGA_VALID as int,
                valid_flag(),
            ),
            r == old(self).test_success(),
    {
        let mut addr: usize = 0;
        while addr < KEYROM_WORDS
            invariant
                addr <= KEYROM_WORDS,
                self.keyrom@.len() == KEYROM_WORDS,
                self.sensitive_data@.len() == KEYROM_WORDS,
                forall|k: int| 0 <= k < addr ==> self.sensitive_data@[k] == self.keyrom@[k],
                self.keyrom@ == old(self).keyrom@,
                self.gateware@ == old(self).gateware@,
                self.staging.data@ == old(self).staging.data@,
                self.staging.fault_at == old(self).staging.fault_at,
                self.loader_code@ == old(self).loader_code@,
                self.kernel@ == old(self).kernel@,
                self.pass_cache == old(self).pass_cache,
                self.boot_password_policy == old(self).boot_password_policy,
                self.update_password_policy == old(self).update_password_policy,
                self.cur_password_type == old(self).cur_password_type,
                self.suspend_blocked == old(self).suspend_blocked,
                self.loader_signature == old(self).loader_signature,
                self.kernel_signature == old(self).kernel_signature,
            decreases KEYROM_WORDS - addr,
        {
            let w = self.keyrom[addr];
            self.sensitive_data.set(addr, w);
            addr += 1;
        }
        proof {
            assert(self.sensitive_data@ =~= old(self).keyrom@);
        }
        let fpga_plain = words_be_bytes_exec(&self.sensitive_data, KEYROM_FPGA_KEY, 8);
        self.pass_cache.set_fpga_key(fpga_plain.as_slice());
        let fpga_key = self.pass_cache.fpga_key_copy();
        proof {
            assert(fpga_key@ =~= words_be_bytes(
                old(self).keyrom@,
                KEYROM_FPGA_KEY as int,
                8,
            ));
        }
        let oracle_opt = BitstreamOracle::new(fpga_key.as_slice(), self.gateware.as_slice());
        match oracle_opt {
            None => false,
            Some(mut oracle) => {
                if oracle.ciphertext_len() < 544 {
                    oracle.clear();
                    return false;
                }
                if self.patch_keys(&oracle).is_err() {
                    oracle.clear();
                    return false;
                }
                if self.verify_gateware(&oracle).is_err() {
                    oracle.clear();
                    return false;
                }
                oracle.clear();
                true
            },
        }
    }

    /// The epilogue of an initialization run, on success and on abort
    /// alike: purges each password whose policy calls for it, purges the
    /// staging copy unconditionally, and re-allows suspend.
    pub fn finish_key_init(&mut self)
        requires
            old(self).wf(),
        ensures
            final(self).wf(),
            final(self).cache_bytes() == cache_after_policy_purge(
                old(self).cache_bytes(),
                old(self).policy_boot(),
                old(self).policy_update(),
            ),
            final(self).staged_words() == zero_words(old(self).staged_words().len()),
            !final(self).suspend_is_blocked(),
            final(self).same_read_only_regions(*old(self)),
            final(self).same_staging_flash(*old(self)),
            final(self).same_signatures(*old(self)),
            final(self).policy_boot() == old(self).policy_boot(),
            final(self).policy_update() == old(self).policy_update(),
            final(self).cur_pw_type() == old(self).cur_pw_type(),
    {
        match self.boot_password_policy {
            PasswordRetentionPolicy::AlwaysPurge => {
                self.purge_password(PasswordType::Boot);
            },
            _ => {},
        }
        match self.update_password_policy {
            PasswordRetentionPolicy::AlwaysPurge => {
                self.purge_password(PasswordType::Update);
            },
            _ => {},
        }
        self.purge_sensitive_data();
        self.suspend_blocked = false;
    }

    /// A copy of the recorded loader signature block, if one exists.
    pub fn loader_signature_block(&self) -> (r: Option<SignatureInFlash>)
        ensures
            r.is_some() == self.loader_sig().is_some(),
            r.is_some() ==> r.unwrap().version == self.loader_sig().unwrap().version,
            r.is_some() ==> r.unwrap().signed_len == self.loader_sig().unwrap().signed_len,
            r.is_some() ==> r.unwrap().signature@ == self.loader_sig().unwrap().signature@,
    {
        match &self.loader_signature {
            None => None,
            Some(s) => Some(
                SignatureInFlash {
                    version: s.version,
                    signed_len: s.signed_len,
                    signature: take_range(s.signature.as_slice(), 0, s.signature.len()),
                },
            ),
        }
    }

    /// A copy of the recorded kernel signature block, if one exists.
    pub fn kernel_signature_block(&self) -> (r: Option<SignatureInFlash>)
        ensures
            r.is_some() == self.kernel_sig().is_some(),
            r.is_some() ==> r.unwrap().version == self.kernel_sig().unwrap().version,
            r.is_some() ==> r.unwrap().signed_len == self.kernel_sig().unwrap().signed_len,
            r.is_some() ==> r.unwrap().signature@ == self.kernel_sig().unwrap().signature@,
    {
        match &self.kernel_signature {
            None => None,
            Some(s) => Some(
                SignatureInFlash {
                    version: s.version,
                    signed_len: s.signed_len,
                    signature: take_range(s.signature.as_slice(), 0, s.signature.len()),
                },
            ),
        }
    }
}

/// The stated policy, or the always-purge default where none is stated.
pub open spec fn policy_or_default(p: Option<PasswordRetentionPolicy>) -> PasswordRetentionPolicy {
    match p {
        Some(q) => q,
        None => PasswordRetentionPolicy::AlwaysPurge,
    }
}

/// The well-known byte filling the second half of a correctly decrypted
/// leading header.
pub const HEADER_SENTINEL: u8 = 0x6c;

/// Bytes of the trailing region of the encrypted image that the body hash
/// does not cover: container padding plus the space reserved for the second
/// digest.
pub const VERIFY_TRAILER: usize = 480;

/// Whether the second half of the decrypted 64-byte leading header holds the
/// well-known sentinel pattern: a wrong cipher key fails this gate.
pub open spec fn header_sentinel_ok(key: Seq<u8>, iv: Seq<u8>, ct: Seq<u8>) -> bool {
    forall|i: int| 32 <= i < 64 ==> plain_range(key, iv, ct, 0, 64)[i] == HEADER_SENTINEL
}

/// The embedded authentication code: the XOR of the two halves of the
/// decrypted leading header.
pub open spec fn gw_hmac_code(key: Seq<u8>, iv: Seq<u8>, ct: Seq<u8>) -> Seq<u8> {
    let h = plain_range(key, iv, ct, 0, 64);
    Seq::new(32, |i: int| h[i] ^ h[32 + i])
}

/// The fixed public mask the authentication code is combined with.
pub open spec fn footer_mask() -> Seq<u8> {
    Seq::new(32, |i: int| 0x3au8)
}

/// The streaming digest over the decrypted, bit-order-transformed body of
/// the image, which excludes the trailing reserved region.
pub open spec fn gw_body_digest(key: Seq<u8>, iv: Seq<u8>, ct: Seq<u8>) -> Seq<u8> {
    sha256_of(flip_seq(plain_range(key, iv, ct, 0, ct.len() - VERIFY_TRAILER)))
}

/// The second-stage digest: the masked authentication code and the mask,
/// both bit-order-transformed, followed by the body digest.
pub open spec fn gw_check_digest(key: Seq<u8>, iv: Seq<u8>, ct: Seq<u8>) -> Seq<u8> {
    sha256_of(
        flip_seq(xor_bytes(gw_hmac_code(key, iv, ct), footer_mask())) + flip_seq(footer_mask())
            + gw_body_digest(key, iv, ct),
    )
}

/// The reference digest embedded in the last cipher block of the image.
pub open spec fn gw_ref_digest(key: Seq<u8>, iv: Seq<u8>, ct: Seq<u8>) -> Seq<u8> {
    flip_seq(plain_range(key, iv, ct, ct.len() - 32, 32))
}

/// The image's own self-check: the recomputed second-stage digest matches
/// the embedded reference digest byte for byte.
pub open spec fn gateware_verifies(key: Seq<u8>, iv: Seq<u8>, ct: Seq<u8>) -> bool {
    gw_check_digest(key, iv, ct) == gw_ref_digest(key, iv, ct)
}

/// Whether a backup pass over `len` bytes hits the injected storage fault.
pub open spec fn backup_fails(fault: Option<usize>, len: int) -> bool {
    match fault {
        Some(f) => (f as int) < len,
        None => false,
    }
}

/// The staging copy after the provisioning writes: public key, encrypted
/// private key and encrypted boot key stored as big-endian words, the FPGA
/// key masked by the update digest, and the initialized bit set in the
/// packed configuration word.
pub open spec fn staged_after_init(
    s: Seq<u32>,
    pubkey: Seq<u8>,
    priv_enc: Seq<u8>,
    boot_enc: Seq<u8>,
    update_digest: Seq<u8>,
) -> Seq<u32> {
    let s1 = overwrite(s, KEYROM_SELFSIGN_PUBKEY as int, be_words_of(pubkey));
    let s2 = overwrite(s1, KEYROM_SELFSIGN_PRIVKEY as int, be_words_of(priv_enc));
    let s3 = overwrite(s2, KEYROM_USER_KEY as int, be_words_of(boot_enc));
    let s4 = xor_words_at(s3, KEYROM_FPGA_KEY as int, be_words_of(update_digest));
    s4.update(KEYROM_CONFIG as int, s4[KEYROM_CONFIG as int] | initialized_mask())
}

/// Packs a byte slice (a multiple of 4 long) into big-endian words at word
/// offset `at`.
fn pack_be_words(dst: &mut Vec<u32>, at: usize, bytes: &[u8])
    requires
        bytes@.len() % 4 == 0,
        at + bytes@.len() / 4 <= old(dst)@.len(),
    ensures
        final(dst)@ == overwrite(old(dst)@, at as int, be_words_of(bytes@)),
{
    let blen = bytes.len();
    let n = blen / 4;
    let total = dst.len();
    proof {
        lemma_fundamental_div_mod(blen as int, 4);
    }
    let mut a: usize = 0;
    while a < n
        invariant
            a <= n,
            blen == bytes@.len(),
            blen == 4 * n,
            at + n <= total,
            total == dst@.len(),
            dst@.len() == old(dst)@.len(),
            forall|k: int| 0 <= k < a ==> dst@[at + k] == be_words_of(bytes@)[k],
            forall|k: int| 0 <= k < total && !(at <= k < at + a) ==> dst@[k] == old(dst)@[k],
        decreases n - a,
    {
        let w = be_word_exec(bytes, 4 * a);
        dst.set(at + a, w);
        a += 1;
    }
    proof {
        assert(final(dst)@ =~= overwrite(old(dst)@, at as int, be_words_of(bytes@)));
    }
}

/// A byte slice (a multiple of 4 long) packed into big-endian words.
fn be_words_vec(bytes: &[u8]) -> (r: Vec<u32>)
    requires
        bytes@.len() % 4 == 0,
    ensures
        r@ == be_words_of(bytes@),
{
    let blen = bytes.len();
    let n = blen / 4;
    proof {
        lemma_fundamental_div_mod(blen as int, 4);
    }
    let mut r: Vec<u32> = Vec::new();
    let mut a: usize = 0;
    while a < n
        invariant
            a <= n,
            blen == bytes@.len(),
            blen == 4 * n,
            r@.len() == a,
            forall|k: int| 0 <= k < a ==> r@[k] == be_words_of(bytes@)[k],
        decreases n - a,
    {
        r.push(be_word_exec(bytes, 4 * a));
        a += 1;
    }
    proof {
        assert(r@ =~= be_words_of(bytes@));
    }
    r
}

/// XORs `src` word-for-word into `dst` starting at word offset `at`.
fn xor_words_range(dst: &mut Vec<u32>, at: usize, src: &[u32])
    requires
        at + src@.len() <= old(dst)@.len(),
    ensures
        final(dst)@ == xor_words_at(old(dst)@, at as int, src@),
{
    let n = src.len();
    let total = dst.len();
    let mut k: usize = 0;
    while k < n
        invariant
            k <= n,
            n == src@.len(),
            at + n <= total,
            total == dst@.len(),
            dst@.len() == old(dst)@.len(),
            forall|j: int| 0 <= j < k ==> dst@[at + j] == (old(dst)@[at + j] ^ src@[j]),
            forall|j: int| 0 <= j < total && !(at <= j < at + k) ==> dst@[j] == old(dst)@[j],
        decreases n - k,
    {
        let w = dst[at + k] ^ src[k];
        dst.set(at + k, w);
        k += 1;
    }
    proof {
        assert(final(dst)@ =~= xor_words_at(old(dst)@, at as int, src@));
    }
}

/// Derivation determinism and purpose separation: the derived digest is a
/// function of pepper, purpose and password alone, so repeated derivations
/// from equal inputs agree; and the two purposes never derive under the same
/// effective salt, even though they share one stored pepper.
pub proof fn lemma_derivation_determinism_and_separation(
    pepper: Seq<u8>,
    purpose: PasswordType,
    pw1: Seq<u8>,
    pw2: Seq<u8>,
)
    requires
        pepper.len() == 16,
        pw1 == pw2,
    ensures
        derived_digest(pepper, purpose, pw1) == derived_digest(pepper, purpose, pw2),
        effective_salt(pepper, PasswordType::Boot) != effective_salt(
            pepper,
            PasswordType::Update,
        ),
{
    let b0 = pepper[0];
    assert((b0 ^ 1u8) != (b0 ^ 2u8)) by (bit_vector);
    assert(effective_salt(pepper, PasswordType::Boot)[0] == (b0 ^ 1u8));
    assert(effective_salt(pepper, PasswordType::Update)[0] == (b0 ^ 2u8));
}

proof fn lemma_mod16_to_mod4(a: int)
    requires
        a % 16 == 0,
    ensures
        a % 4 == 0,
{
    lemma_mod_mod(a, 4, 4);
}

/// Reads `nwords` words starting at `start` out as big-endian bytes.
fn words_be_bytes_exec(ws: &Vec<u32>, start: usize, nwords: usize) -> (r: Vec<u8>)
    requires
        start + nwords <= ws@.len(),
    ensures
        r@ == words_be_bytes(ws@, start as int, nwords as int),
        r@.len() == 4 * nwords,
{
    let wl = ws.len();
    let mut r: Vec<u8> = Vec::new();
    let mut a: usize = 0;
    while a < nwords
        invariant
            a <= nwords,
            start + nwords <= wl,
            wl == ws@.len(),
            r@.len() == 4 * a,
            forall|i: int| 0 <= i < 4 * a ==> r@[i] == word_be_byte(ws@[start + i / 4], i % 4),
        decreases nwords - a,
    {
        let w = ws[start + a];
        proof {
            assert(((w >> 24) & 0xff) < 256 && ((w >> 16) & 0xff) < 256 && ((w >> 8) & 0xff) < 256
                && (w & 0xff) < 256) by (bit_vector);
        }
        r.push(((w >> 24) & 0xff) as u8);
        r.push(((w >> 16) & 0xff) as u8);
        r.push(((w >> 8) & 0xff) as u8);
        r.push((w & 0xff) as u8);
        proof {
            assert forall|i: int| 0 <= i < 4 * (a + 1) implies r@[i] == word_be_byte(
                ws@[start + i / 4],
                i % 4,
            ) by {
                if i >= 4 * a {
                    lemma_div_mod_4(i, a as int);
                }
            }
        }
        a += 1;
    }
    proof {
        assert(r@ =~= words_be_bytes(ws@, start as int, nwords as int));
    }
    r
}

proof fn lemma_div_mod_4(i: int, a: int)
    requires
        a >= 0,
        4 * a <= i < 4 * (a + 1),
    ensures
        i / 4 == a,
        i % 4 == i - 4 * a,
{
    vstd::arithmetic::div_mod::lemma_fundamental_div_mod_converse_div(i, 4, a, i - 4 * a);
    vstd::arithmetic::div_mod::lemma_fundamental_div_mod_converse_mod(i, 4, a, i - 4 * a);
}

/// A copy of a word vector.
fn copy_words(ws: &Vec<u32>) -> (r: Vec<u32>)
    ensures
        r@ == ws@,
{
    let n = ws.len();
    let mut r: Vec<u32> = Vec::new();
    let mut i: usize = 0;
    while i < n
        invariant
            i <= n,
            n == ws@.len(),
            r@.len() == i,
            forall|k: int| 0 <= k < i ==> r@[k] == ws@[k],
        decreases n - i,
    {
        r.push(ws[i]);
        i += 1;
    }
    proof {
        assert(r@ =~= ws@);
    }
    r
}

} // verus!

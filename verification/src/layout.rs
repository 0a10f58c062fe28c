//! Fixed layout of the secure key store (a 256-word configuration memory),
//! the packed configuration word, and the common enums of the subsystem.

use vstd::prelude::*;

verus! {

/// Size in bytes of the area reserved for one signature block: one flash
/// erase sector, the smallest increment that can be erased.
pub const SIGBLOCK_SIZE: u32 = 0x1000;

/// Word offsets of the key-store fields.
pub const KEYROM_FPGA_KEY: usize = 0x00;

pub const KEYROM_SELFSIGN_PRIVKEY: usize = 0x08;

pub const KEYROM_SELFSIGN_PUBKEY: usize = 0x10;

pub const KEYROM_DEVELOPER_PUBKEY: usize = 0x18;

pub const KEYROM_THIRDPARTY_PUBKEY: usize = 0x20;

pub const KEYROM_USER_KEY: usize = 0x28;

pub const KEYROM_PEPPER: usize = 0xf8;

pub const KEYROM_FPGA_MIN_REV: usize = 0xfc;

pub const KEYROM_LOADER_MIN_REV: usize = 0xfd;

pub const KEYROM_CONFIG: usize = 0xff;

/// The byte-swap of a 32-bit word: the key store is read out as big-endian
/// words by a little-endian core, so packed fields are byte-swapped between
/// the in-register and the stored form.
pub open spec fn spec_swap32(w: u32) -> u32 {
    ((w & 0xff) << 24) | (((w >> 8) & 0xff) << 16) | (((w >> 16) & 0xff) << 8) | ((w >> 24) & 0xff)
}

/// One packed bit field of the configuration word: a mask of `width` ones
/// shifted into place at `offset`.
pub struct KeyField {
    mask: u32,
    offset: u32,
}

impl KeyField {
    pub closed spec fn spec_mask(self) -> u32 {
        self.mask
    }

    pub closed spec fn spec_offset(self) -> u32 {
        self.offset
    }

    pub open spec fn wf(self) -> bool {
        self.spec_offset() < 32
    }

    pub fn new(width: u32, offset: u32) -> (r: KeyField)
        requires
            width < 32,
            offset < 32,
        ensures
            r.spec_mask() == (1u32 << width) - 1,
            r.spec_offset() == offset,
            r.wf(),
    {
        proof {
            assert(1u32 << width >= 1) by (bit_vector)
                requires
                    width < 32,
            ;
        }
        let mask = (1u32 << width) - 1;
        KeyField { mask, offset }
    }

    /// The field's `value`, masked, shifted into place, and byte-swapped
    /// into the stored form of the configuration word.
    pub fn ms(&self, value: u32) -> (r: u32)
        requires
            self.wf(),
        ensures
            r == spec_swap32((value & self.spec_mask()) << self.spec_offset()),
    {
        let ms_le = (value & self.mask) << self.offset;
        ((ms_le & 0xff) << 24) | (((ms_le >> 8) & 0xff) << 16) | (((ms_le >> 16) & 0xff) << 8) | (
        (ms_le >> 24) & 0xff)
    }
}

/// The configuration-word bit fields.
pub fn config_version_minor() -> (r: KeyField)
    ensures
        r.spec_mask() == (1u32 << 8) - 1,
        r.spec_offset() == 0,
        r.wf(),
{
    KeyField::new(8, 0)
}

pub fn config_version_major() -> (r: KeyField)
    ensures
        r.spec_mask() == (1u32 << 8) - 1,
        r.spec_offset() == 8,
        r.wf(),
{
    KeyField::new(8, 8)
}

pub fn config_devboot_disable() -> (r: KeyField)
    ensures
        r.spec_mask() == (1u32 << 1) - 1,
        r.spec_offset() == 16,
        r.wf(),
{
    KeyField::new(1, 16)
}

pub fn config_antirollback_ena() -> (r: KeyField)
    ensures
        r.spec_mask() == (1u32 << 1) - 1,
        r.spec_offset() == 17,
        r.wf(),
{
    KeyField::new(1, 17)
}

pub fn config_antirollforw_ena() -> (r: KeyField)
    ensures
        r.spec_mask() == (1u32 << 1) - 1,
        r.spec_offset() == 18,
        r.wf(),
{
    KeyField::new(1, 18)
}

pub fn config_forward_rev_limit() -> (r: KeyField)
    ensures
        r.spec_mask() == (1u32 << 4) - 1,
        r.spec_offset() == 19,
        r.wf(),
{
    KeyField::new(4, 19)
}

pub fn config_forward_minor_limit() -> (r: KeyField)
    ensures
        r.spec_mask() == (1u32 << 4) - 1,
        r.spec_offset() == 23,
        r.wf(),
{
    KeyField::new(4, 23)
}

pub fn config_initialized() -> (r: KeyField)
    ensures
        r.spec_mask() == (1u32 << 1) - 1,
        r.spec_offset() == 27,
        r.wf(),
{
    KeyField::new(1, 27)
}

/// The stored form of the "initialized" flag within the configuration word.
pub open spec fn initialized_mask() -> u32 {
    spec_swap32(1u32 << 27)
}

/// Which password a derivation, purge or policy change concerns.
#[derive(Clone, Copy, Debug, PartialEq, Eq, Structural)]
pub enum PasswordType {
    Boot,
    Update,
}

/// The small nonzero integer encoding a password purpose; it perturbs the
/// stored pepper so the two purposes never share an effective salt.
pub open spec fn spec_purpose_code(t: PasswordType) -> u8 {
    match t {
        PasswordType::Boot => 1,
        PasswordType::Update => 2,
    }
}

pub fn purpose_code(t: PasswordType) -> (r: u8)
    ensures
        r == spec_purpose_code(t),
{
    match t {
        PasswordType::Boot => 1,
        PasswordType::Update => 2,
    }
}

/// What happens to a cached password digest on suspend: kept, or purged.
#[derive(Clone, Copy, Debug, PartialEq, Eq, Structural)]
pub enum PasswordRetentionPolicy {
    AlwaysKeep,
    AlwaysPurge,
}

/// The terminal error kinds of a provisioning run.
#[derive(Clone, Copy, Debug, PartialEq, Eq, Structural)]
pub enum RootkeyResult {
    AlignmentError,
    KeyError,
    IntegrityError,
    FlashError,
}

/// The persisted signature block that occupies one erase sector in front of
/// a signed image: version, signed length, and a 64-byte signature, with the
/// rest of the sector zero-padded.
pub struct SignatureInFlash {
    pub version: u32,
    pub signed_len: u32,
    pub signature: Vec<u8>,
}

impl SignatureInFlash {
    pub open spec fn wf(self) -> bool {
        self.signature@.len() == 64
    }
}

} // verus!

use root_keys::cache::{
    PasswordCache, CACHE_BOOT_PW, CACHE_BOOT_VALID, CACHE_FPGA_KEY, CACHE_FPGA_VALID, CACHE_LEN,
    CACHE_UPDATE_PW, CACHE_UPDATE_VALID,
};
use root_keys::layout::{config_initialized, purpose_code, KeyField, PasswordType};
use root_keys::process::ProcessId;

#[test]
fn key_field_initialized_mask() {
    // (1 << 27) byte-swapped into the stored form.
    let field = config_initialized();
    assert_eq!(field.ms(1), 0x0000_0008);
    assert_eq!(field.ms(0), 0);
}

#[test]
fn key_field_shift_and_swap() {
    let field = KeyField::new(8, 8);
    // 0x12 masked and shifted gives 0x0000_1200; byte-swapped: 0x0012_0000.
    assert_eq!(field.ms(0x12), 0x0012_0000);
    // Values wider than the mask are truncated to it.
    assert_eq!(field.ms(0x345), 0x0045_0000);
}

#[test]
fn purpose_codes_differ() {
    assert_ne!(
        purpose_code(PasswordType::Boot),
        purpose_code(PasswordType::Update)
    );
    assert_ne!(purpose_code(PasswordType::Boot), 0);
    assert_ne!(purpose_code(PasswordType::Update), 0);
}

#[test]
fn cache_purge_update_zeroizes_and_keeps_boot() {
    let mut cache = PasswordCache::new();
    let boot = [0x11u8; 32];
    let update = [0x22u8; 32];
    let fpga = [0x33u8; 32];
    cache.set_digest(PasswordType::Boot, &boot);
    cache.set_digest(PasswordType::Update, &update);
    cache.set_fpga_key(&fpga);
    assert!(cache.is_valid(PasswordType::Boot));
    assert!(cache.is_valid(PasswordType::Update));
    assert!(cache.is_fpga_key_valid());

    cache.purge(PasswordType::Update);
    let bytes = cache.snapshot();
    assert_eq!(bytes.len(), CACHE_LEN);
    // Every byte of the update digest, the FPGA key, and both their
    // validity words reads as zero.
    for i in CACHE_UPDATE_PW..CACHE_LEN {
        assert_eq!(bytes[i], 0, "byte {} not zero after purge", i);
    }
    assert_eq!(bytes[CACHE_UPDATE_VALID], 0);
    assert_eq!(bytes[CACHE_FPGA_VALID], 0);
    // Unrelated fields are unchanged.
    for i in 0..32 {
        assert_eq!(bytes[CACHE_BOOT_PW + i], 0x11);
    }
    assert_ne!(bytes[CACHE_BOOT_VALID], 0);
    assert!(cache.is_valid(PasswordType::Boot));
    assert!(!cache.is_valid(PasswordType::Update));
    assert!(!cache.is_fpga_key_valid());
}

#[test]
fn cache_purge_boot_keeps_update_and_fpga() {
    let mut cache = PasswordCache::new();
    cache.set_digest(PasswordType::Boot, &[0x44u8; 32]);
    cache.set_digest(PasswordType::Update, &[0x55u8; 32]);
    cache.set_fpga_key(&[0x66u8; 32]);
    cache.purge(PasswordType::Boot);
    let bytes = cache.snapshot();
    for i in 0..CACHE_UPDATE_PW {
        assert_eq!(bytes[i], 0);
    }
    for i in 0..32 {
        assert_eq!(bytes[CACHE_UPDATE_PW + i], 0x55);
        assert_eq!(bytes[CACHE_FPGA_KEY + i], 0x66);
    }
    assert!(cache.is_fpga_key_valid());
}

#[test]
fn process_id_set_once() {
    let mut pid = ProcessId::new();
    assert_eq!(pid.id(), 0);
    pid.set_id(42);
    assert_eq!(pid.id(), 42);
}

use aes::cipher::{Array, BlockCipherEncrypt, KeyInit};
use ed25519_dalek::{Signature, SigningKey, VerifyingKey};
use root_keys::bitflip;
use root_keys::cache::{CACHE_FPGA_KEY, CACHE_FPGA_VALID, CACHE_UPDATE_PW, CACHE_UPDATE_VALID};
use root_keys::keys::FlashRegion;
use root_keys::layout::{PasswordRetentionPolicy, PasswordType, RootkeyResult};
use root_keys::RootKeys;
use sha2::{Digest, Sha256, Sha512, Sha512_256};

fn cbc_flip_encrypt(key: &[u8], iv: &[u8], plain: &[u8]) -> Vec<u8> {
    let cipher = aes::Aes256::new_from_slice(key).unwrap();
    let mut chain: Vec<u8> = iv.to_vec();
    let mut ct: Vec<u8> = Vec::new();
    for block in plain.chunks(16) {
        let x: Vec<u8> = block.iter().zip(chain.iter()).map(|(a, b)| a ^ b).collect();
        let mut arr: Array<u8, aes::cipher::consts::U16> =
            Array::try_from(x.as_slice()).unwrap();
        cipher.encrypt_block(&mut arr);
        let enc = arr.as_slice().to_vec();
        ct.extend_from_slice(bitflip(&enc).as_slice());
        chain = enc;
    }
    ct
}

fn build_bitstream(iv: &[u8], ct: &[u8]) -> Vec<u8> {
    let mut bs = Vec::new();
    bs.extend_from_slice(&[0x30, 0x01, 0x60, 0x04]);
    bs.extend_from_slice(bitflip(iv).as_slice());
    bs.extend_from_slice(&[0x30, 0x03, 0x40, 0x01]);
    bs.extend_from_slice(&((ct.len() / 4) as u32).to_be_bytes());
    bs.extend_from_slice(ct);
    bs
}

fn build_valid_image(key: &[u8], iv: &[u8], ctlen: usize) -> Vec<u8> {
    assert!(ctlen % 16 == 0 && ctlen >= 544);
    let tot_len = ctlen - 480;
    let code = [0xabu8; 32];
    let mut p = vec![0u8; ctlen];
    for i in 0..32 {
        p[i] = code[i] ^ 0x6c;
    }
    for i in 32..64 {
        p[i] = 0x6c;
    }
    for i in 64..tot_len {
        p[i] = (i % 251) as u8;
    }
    let h1 = Sha256::digest(bitflip(&p[0..tot_len]).as_slice());
    let mask = [0x3au8; 32];
    let masked: Vec<u8> = code.iter().map(|c| c ^ 0x3a).collect();
    let mut h2_input = Vec::new();
    h2_input.extend_from_slice(bitflip(&masked).as_slice());
    h2_input.extend_from_slice(bitflip(&mask).as_slice());
    h2_input.extend_from_slice(&h1);
    let h2 = Sha256::digest(&h2_input);
    let h2_flipped = bitflip(&h2);
    for i in 0..32 {
        p[ctlen - 32 + i] = h2_flipped[i];
    }
    let ct = cbc_flip_encrypt(key, iv, &p);
    build_bitstream(iv, &ct)
}

fn keyrom_with_fpga_key(key: &[u8; 32]) -> Vec<u32> {
    let mut rom = vec![0u32; 256];
    for a in 0..8 {
        rom[a] = u32::from_be_bytes(key[4 * a..4 * a + 4].try_into().unwrap());
    }
    rom
}

fn fresh_keys(keyrom: Vec<u32>, gateware: Vec<u8>, fault_at: Option<usize>) -> RootKeys {
    let staging = FlashRegion { data: vec![0u8; gateware.len()], fault_at };
    let mut loader = vec![0u8; 4096 + 96];
    for (i, b) in loader.iter_mut().enumerate() {
        *b = (i % 253) as u8;
    }
    let mut kernel = vec![0u8; 4096 + 64];
    for (i, b) in kernel.iter_mut().enumerate() {
        *b = (i % 241) as u8;
    }
    RootKeys::new(keyrom, gateware, staging, loader, kernel)
}

fn expected_digest(salt_bytes: &[u8], code: u8, pw: &[u8]) -> Vec<u8> {
    let mut salt = [0u8; 16];
    salt.copy_from_slice(salt_bytes);
    salt[0] ^= code;
    let clipped = if pw.len() > 72 { &pw[..72] } else { pw };
    let h = bcrypt::bcrypt(7, salt, clipped);
    Sha512_256::digest(h).to_vec()
}

const PEPPER_WORDS: [u32; 4] = [0x0102_0304, 0x0506_0708, 0x090a_0b0c, 0x0d0e_0f10];

const PEPPER_BYTES: [u8; 16] = [
    0x01, 0x02, 0x03, 0x04, 0x05, 0x06, 0x07, 0x08, 0x09, 0x0a, 0x0b, 0x0c, 0x0d, 0x0e, 0x0f,
    0x10,
];

#[test]
fn derive_matches_primitives() {
    let mut rk = fresh_keys(vec![0u32; 256], Vec::new(), None);
    rk.setup_key_init(&PEPPER_WORDS);
    rk.hash_and_save_password(PasswordType::Boot, b"correct horse");
    let cache = rk.cache_snapshot();
    let expected = expected_digest(&PEPPER_BYTES, 1, b"correct horse");
    assert_eq!(&cache[0..32], expected.as_slice());
    assert_ne!(cache[32], 0);
}

#[test]
fn derive_deterministic_and_purpose_separated() {
    let mut rk = fresh_keys(vec![0u32; 256], Vec::new(), None);
    rk.setup_key_init(&PEPPER_WORDS);
    rk.hash_and_save_password(PasswordType::Boot, b"hunter2!");
    let first = rk.cache_snapshot()[0..32].to_vec();
    rk.hash_and_save_password(PasswordType::Boot, b"hunter2!");
    let second = rk.cache_snapshot()[0..32].to_vec();
    assert_eq!(first, second);
    rk.hash_and_save_password(PasswordType::Update, b"hunter2!");
    let update = rk.cache_snapshot()[CACHE_UPDATE_PW..CACHE_UPDATE_PW + 32].to_vec();
    assert_ne!(first, update);
}

#[test]
fn derive_clips_password_to_72_bytes() {
    let mut rk = fresh_keys(vec![0u32; 256], Vec::new(), None);
    rk.setup_key_init(&PEPPER_WORDS);
    let long = [0x61u8; 100];
    rk.hash_and_save_password(PasswordType::Boot, &long);
    let with_long = rk.cache_snapshot()[0..32].to_vec();
    rk.hash_and_save_password(PasswordType::Boot, &long[..72]);
    let with_head = rk.cache_snapshot()[0..32].to_vec();
    assert_eq!(with_long, with_head);
}

#[test]
fn derive_reads_committed_pepper_once_initialized() {
    let mut rom = vec![0u32; 256];
    for (i, w) in PEPPER_WORDS.iter().enumerate() {
        rom[0xf8 + i] = *w;
    }
    rom[0xff] = 0x0000_0008;  // stored form of the initialized bit
    let mut rk = fresh_keys(rom, Vec::new(), None);
    assert!(rk.is_initialized());
    rk.hash_and_save_password(PasswordType::Update, b"pw");
    let cache = rk.cache_snapshot();
    let expected = expected_digest(&PEPPER_BYTES, 2, b"pw");
    assert_eq!(&cache[CACHE_UPDATE_PW..CACHE_UPDATE_PW + 32], expected.as_slice());
}

#[test]
fn uninitialized_without_flag() {
    let rk = fresh_keys(vec![0u32; 256], Vec::new(), None);
    assert!(!rk.is_initialized());
}

#[test]
fn read_keys_big_endian() {
    let mut rom = vec![0u32; 256];
    rom[0x10] = 0x0102_0304;
    rom[0x11] = 0xaabb_ccdd;
    rom[0xf8] = 0xdead_beef;
    let rk = fresh_keys(rom, Vec::new(), None);
    let k256 = rk.read_key_256(0x10);
    assert_eq!(&k256[0..8], &[0x01, 0x02, 0x03, 0x04, 0xaa, 0xbb, 0xcc, 0xdd]);
    assert_eq!(k256.len(), 32);
    let k128 = rk.read_key_128(0xf8);
    assert_eq!(&k128[0..4], &[0xde, 0xad, 0xbe, 0xef]);
    assert_eq!(k128.len(), 16);
}

#[test]
fn purge_update_password_zeroizes() {
    let mut rk = fresh_keys(vec![0u32; 256], Vec::new(), None);
    rk.setup_key_init(&PEPPER_WORDS);
    rk.hash_and_save_password(PasswordType::Boot, b"boot");
    rk.hash_and_save_password(PasswordType::Update, b"update");
    let before = rk.cache_snapshot();
    rk.purge_password(PasswordType::Update);
    let after = rk.cache_snapshot();
    for i in CACHE_UPDATE_PW..after.len() {
        assert_eq!(after[i], 0);
    }
    assert_eq!(&after[0..CACHE_UPDATE_PW], &before[0..CACHE_UPDATE_PW]);
}

#[test]
fn suspend_honors_retention_policy() {
    let mut rk = fresh_keys(vec![0u32; 256], Vec::new(), None);
    rk.setup_key_init(&PEPPER_WORDS);
    rk.hash_and_save_password(PasswordType::Boot, b"boot");
    rk.hash_and_save_password(PasswordType::Update, b"update");
    let boot_digest = rk.cache_snapshot()[0..32].to_vec();
    rk.suspend();
    let cache = rk.cache_snapshot();
    // The boot password is kept by default; the update password is purged.
    assert_eq!(&cache[0..32], boot_digest.as_slice());
    assert_eq!(cache[CACHE_UPDATE_VALID], 0);
    for i in CACHE_UPDATE_PW..CACHE_UPDATE_PW + 32 {
        assert_eq!(cache[i], 0);
    }
    // The staging copy is purged unconditionally.
    assert!(rk.staged_snapshot().iter().all(|w| *w == 0));
    rk.resume();
    assert_eq!(rk.cache_snapshot(), cache);
}

#[test]
fn update_policy_changes_suspend_behavior() {
    let mut rk = fresh_keys(vec![0u32; 256], Vec::new(), None);
    rk.setup_key_init(&PEPPER_WORDS);
    rk.update_policy(PasswordType::Update, Some(PasswordRetentionPolicy::AlwaysKeep));
    rk.hash_and_save_password(PasswordType::Update, b"update");
    let digest = rk.cache_snapshot()[CACHE_UPDATE_PW..CACHE_UPDATE_PW + 32].to_vec();
    rk.suspend();
    assert_eq!(
        &rk.cache_snapshot()[CACHE_UPDATE_PW..CACHE_UPDATE_PW + 32],
        digest.as_slice()
    );
    // No stated policy falls back to always purging.
    rk.update_policy(PasswordType::Update, None);
    rk.suspend();
    assert!(rk.cache_snapshot()[CACHE_UPDATE_PW..CACHE_UPDATE_PW + 32]
        .iter()
        .all(|b| *b == 0));
}

#[test]
fn ux_password_type_roundtrip() {
    let mut rk = fresh_keys(vec![0u32; 256], Vec::new(), None);
    assert_eq!(rk.get_ux_password_type(), None);
    rk.set_ux_password_type(Some(PasswordType::Update));
    assert_eq!(rk.get_ux_password_type(), Some(PasswordType::Update));
    // Setting a policy ends the session that named the purpose.
    rk.update_policy(PasswordType::Update, Some(PasswordRetentionPolicy::AlwaysPurge));
    assert_eq!(rk.get_ux_password_type(), None);
}

#[test]
fn loader_signature_verifies() {
    let rk = fresh_keys(vec![0u32; 256], Vec::new(), None);
    let seed = [7u8; 32];
    let font = [0x5au8; 256];
    let (sig, signed_len) = rk.sign_loader(&seed, &font);
    let loader = {
        let mut loader = vec![0u8; 4096 + 96];
        for (i, b) in loader.iter_mut().enumerate() {
            *b = (i % 253) as u8;
        }
        loader
    };
    assert_eq!(signed_len as usize, loader.len() - 4096 + font.len() + 8);
    let mut message = loader[4096..].to_vec();
    message.extend_from_slice(&font);
    let sk = SigningKey::from_bytes(&seed);
    let mut h = Sha512::new();
    h.update(&message);
    let signature = Signature::from_bytes(sig.as_slice().try_into().unwrap());
    let vk: VerifyingKey = sk.verifying_key();
    assert!(vk.verify_prehashed(h, None, &signature).is_ok());
}

#[test]
fn kernel_signature_verifies() {
    let rk = fresh_keys(vec![0u32; 256], Vec::new(), None);
    let seed = [9u8; 32];
    let (sig, signed_len) = rk.sign_kernel(&seed);
    let kernel = {
        let mut kernel = vec![0u8; 4096 + 64];
        for (i, b) in kernel.iter_mut().enumerate() {
            *b = (i % 241) as u8;
        }
        kernel
    };
    assert_eq!(signed_len as usize, kernel.len() - 4096);
    let sk = SigningKey::from_bytes(&seed);
    let mut h = Sha512::new();
    h.update(&kernel[4096..]);
    let signature = Signature::from_bytes(sig.as_slice().try_into().unwrap());
    assert!(sk.verifying_key().verify_prehashed(h, None, &signature).is_ok());
}

#[test]
fn make_gateware_backup_copies_or_fails() {
    let gw: Vec<u8> = (0..1000u32).map(|i| (i % 256) as u8).collect();
    let mut rk = fresh_keys(vec![0u32; 256], gw.clone(), None);
    assert!(rk.make_gateware_backup().is_ok());
    assert_eq!(rk.staging_flash_snapshot(), gw);

    let mut rk2 = fresh_keys(vec![0u32; 256], gw.clone(), Some(500));
    assert!(matches!(
        rk2.make_gateware_backup(),
        Err(RootkeyResult::FlashError)
    ));
}

#[test]
fn key_init_end_to_end() {
    let fpga_key = [0x42u8; 32];
    let iv = [0u8; 16];
    let gateware = build_valid_image(&fpga_key, &iv, 608);
    let mut rk = fresh_keys(keyrom_with_fpga_key(&fpga_key), gateware.clone(), None);
    rk.setup_key_init(&PEPPER_WORDS);
    rk.hash_and_save_password(PasswordType::Boot, b"boot-pw");
    rk.hash_and_save_password(PasswordType::Update, b"update-pw");
    let cache = rk.cache_snapshot();
    let boot_digest = cache[0..32].to_vec();
    let update_digest = cache[CACHE_UPDATE_PW..CACHE_UPDATE_PW + 32].to_vec();
    let seed = [0x21u8; 32];
    let boot_entropy = [0x77u8; 32];
    let font = [0x13u8; 128];

    let ok = rk.do_key_init(&seed, &boot_entropy, &font);
    assert!(ok);

    // The backup is in the staging region; the live image is untouched.
    assert_eq!(rk.staging_flash_snapshot(), gateware);
    assert_eq!(rk.gateware_snapshot(), gateware);

    let staged = rk.staged_snapshot();
    // Public key staged in plaintext.
    let pubkey = SigningKey::from_bytes(&seed).verifying_key().to_bytes();
    for a in 0..8 {
        assert_eq!(
            staged[0x10 + a],
            u32::from_be_bytes(pubkey[4 * a..4 * a + 4].try_into().unwrap())
        );
    }
    // Private key staged XORed with the update digest.
    for a in 0..8 {
        let mut quad = [0u8; 4];
        for j in 0..4 {
            quad[j] = seed[4 * a + j] ^ update_digest[4 * a + j];
        }
        assert_eq!(staged[0x08 + a], u32::from_be_bytes(quad));
    }
    // Boot key staged XORed with the boot digest.
    for a in 0..8 {
        let mut quad = [0u8; 4];
        for j in 0..4 {
            quad[j] = boot_entropy[4 * a + j] ^ boot_digest[4 * a + j];
        }
        assert_eq!(staged[0x28 + a], u32::from_be_bytes(quad));
    }
    // FPGA key staged XORed with the update digest; plaintext cached.
    for a in 0..8 {
        let mut quad = [0u8; 4];
        for j in 0..4 {
            quad[j] = fpga_key[4 * a + j] ^ update_digest[4 * a + j];
        }
        assert_eq!(staged[a], u32::from_be_bytes(quad));
    }
    let cache_after = rk.cache_snapshot();
    assert_eq!(&cache_after[CACHE_FPGA_KEY..CACHE_FPGA_KEY + 32], &fpga_key);
    assert_ne!(cache_after[CACHE_FPGA_VALID], 0);
    // The initialized bit is set in the staged configuration word.
    assert_ne!(staged[0xff] & 0x0000_0008, 0);

    // The recorded loader signature block verifies.
    let block = rk.loader_signature_block().unwrap();
    assert_eq!(block.version, 1);
    assert_eq!(block.signed_len as usize, 4096 + 96 - 4096 + font.len() + 8);
    let loader = {
        let mut loader = vec![0u8; 4096 + 96];
        for (i, b) in loader.iter_mut().enumerate() {
            *b = (i % 253) as u8;
        }
        loader
    };
    let mut message = loader[4096..].to_vec();
    message.extend_from_slice(&font);
    let mut h = Sha512::new();
    h.update(&message);
    let signature = Signature::from_bytes(block.signature.as_slice().try_into().unwrap());
    assert!(VerifyingKey::from_bytes(&pubkey)
        .unwrap()
        .verify_prehashed(h, None, &signature)
        .is_ok());
    assert!(rk.kernel_signature_block().is_some());

    // The epilogue purges per policy and zeroes the staging copy.
    rk.finish_key_init();
    assert!(rk.staged_snapshot().iter().all(|w| *w == 0));
    let cache_end = rk.cache_snapshot();
    assert_eq!(&cache_end[0..32], boot_digest.as_slice());
    for i in CACHE_UPDATE_PW..cache_end.len() {
        assert_eq!(cache_end[i], 0);
    }
}

#[test]
fn key_init_aborts_on_flash_failure() {
    let fpga_key = [0x42u8; 32];
    let iv = [0u8; 16];
    let gateware = build_valid_image(&fpga_key, &iv, 608);
    let keyrom = keyrom_with_fpga_key(&fpga_key);
    let mut rk = fresh_keys(keyrom.clone(), gateware.clone(), Some(16));
    rk.setup_key_init(&PEPPER_WORDS);
    rk.hash_and_save_password(PasswordType::Boot, b"boot-pw");
    rk.hash_and_save_password(PasswordType::Update, b"update-pw");

    let ok = rk.do_key_init(&[0x21u8; 32], &[0x77u8; 32], &[0x13u8; 128]);
    assert!(!ok);

    // The live gateware and the key store are byte-for-byte unchanged.
    assert_eq!(rk.gateware_snapshot(), gateware);
    assert_eq!(rk.keyrom_snapshot(), keyrom);

    rk.finish_key_init();
    // The staging copy is fully zeroed afterward.
    assert!(rk.staged_snapshot().iter().all(|w| *w == 0));
}

#[test]
fn key_init_aborts_on_wrong_cached_key() {
    // The image was encrypted under a different key than the key store
    // holds: the header gate must refuse before any frame write.
    let image_key = [0x42u8; 32];
    let rom_key = [0x43u8; 32];
    let iv = [0u8; 16];
    let gateware = build_valid_image(&image_key, &iv, 608);
    let mut rk = fresh_keys(keyrom_with_fpga_key(&rom_key), gateware.clone(), None);
    rk.setup_key_init(&PEPPER_WORDS);
    rk.hash_and_save_password(PasswordType::Boot, b"boot-pw");
    rk.hash_and_save_password(PasswordType::Update, b"update-pw");
    assert!(!rk.do_key_init(&[0x21u8; 32], &[0x77u8; 32], &[0x13u8; 128]));
    assert_eq!(rk.gateware_snapshot(), gateware);
}

#[test]
fn self_test_runs_gate_and_verifier() {
    let fpga_key = [0x37u8; 32];
    let iv = [0u8; 16];
    let gateware = build_valid_image(&fpga_key, &iv, 608);
    let mut rk = fresh_keys(keyrom_with_fpga_key(&fpga_key), gateware.clone(), None);
    assert!(rk.test());
    let mut wrong = fresh_keys(keyrom_with_fpga_key(&[0x38u8; 32]), gateware, None);
    assert!(!wrong.test());
}

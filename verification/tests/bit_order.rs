use root_keys::bitflip;

#[test]
fn bitflip_known_vector() {
    // Within each 4-byte word: bits of each byte reversed, byte order
    // mirrored.
    let input = [0x01u8, 0x02, 0x03, 0x80];
    let out = bitflip(&input);
    assert_eq!(out, vec![0x01u8, 0xc0, 0x40, 0x80]);
}

#[test]
fn bitflip_two_words() {
    let input = [0xffu8, 0x00, 0x0f, 0xf0, 0x55, 0xaa, 0x33, 0xcc];
    let out = bitflip(&input);
    assert_eq!(out, vec![0x0fu8, 0xf0, 0x00, 0xff, 0x33, 0xcc, 0x55, 0xaa]);
}

#[test]
fn bitflip_involution() {
    let mut data = Vec::new();
    for i in 0..64u32 {
        data.push((i * 37 % 256) as u8);
    }
    let once = bitflip(&data);
    let twice = bitflip(&once);
    assert_eq!(twice, data);
    assert_ne!(once, data);
}

#[test]
fn bitflip_empty() {
    let out = bitflip(&[]);
    assert!(out.is_empty());
}

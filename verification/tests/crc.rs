use pngme::crc::Crc32;

#[test]
fn crc_of_nothing_is_zero() {
    let crc = Crc32::new();
    assert_eq!(crc.checksum(b""), 0);
}

#[test]
fn crc_of_check_string() {
    let crc = Crc32::new();
    assert_eq!(crc.checksum(b"123456789"), 0xCBF4_3926);
}

#[test]
fn crc_of_single_letter() {
    let crc = Crc32::new();
    assert_eq!(crc.checksum(b"a"), 0xE8B7_BE43);
}

#[test]
fn crc_of_sentence() {
    let crc = Crc32::new();
    assert_eq!(
        crc.checksum(b"The quick brown fox jumps over the lazy dog"),
        0x414F_A339
    );
}

#[test]
fn crc_of_end_chunk() {
    let crc = Crc32::new();
    assert_eq!(crc.checksum(b"IEND"), 0xAE42_6082);
}

#[test]
fn crc_is_the_same_on_every_call() {
    let first = Crc32::new();
    let second = Crc32::new();
    let bytes = b"RuStThis is where your secret message will be!";
    assert_eq!(first.checksum(bytes), first.checksum(bytes));
    assert_eq!(first.checksum(bytes), second.checksum(bytes));
    assert_eq!(first.checksum(bytes), 2882656334);
}

#[test]
fn crc_changes_with_any_single_byte() {
    let crc = Crc32::new();
    let original = b"RuStThis is where your secret message will be!".to_vec();
    let expected = crc.checksum(&original);
    for i in 0..original.len() {
        let mut changed = original.clone();
        changed[i] ^= 0x01;
        assert_ne!(crc.checksum(&changed), expected);
        changed[i] = original[i].wrapping_add(77);
        assert_ne!(crc.checksum(&changed), expected);
    }
}

#[test]
fn crc_update_runs_over_pieces() {
    let crc = Crc32::new();
    let after_type = crc.update(0xffff_ffff, b"RuSt");
    let after_data = crc.update(after_type, b"This is where your secret message will be!");
    assert_eq!(after_data ^ 0xffff_ffff, 2882656334);
    assert_eq!(crc.update(0x1234_5678, b""), 0x1234_5678);
    assert_eq!(crc.update(0, &[0]), 0);
    assert_eq!(crc.update(0, &[1]), 0x7707_3096);
    assert_eq!(crc.update(0, &[255]), 0x2D02_EF8D);
}

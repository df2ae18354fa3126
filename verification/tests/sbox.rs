use feistel_net::sbox::{aes_sbox, identity_sbox, SBox, AES_SBOX};

#[test]
fn test_sbox_is_permutation() {
    let sbox = SBox::from_seed(42);
    let mut seen = [false; 256];
    for i in 0u32..256 {
        let out = sbox.substitute(i as u8) as usize;
        assert!(!seen[out], "Duplicate output at index {i}");
        seen[out] = true;
    }
}

#[test]
fn test_sbox_inverse_roundtrip() {
    let sbox = SBox::from_seed(12345);
    for i in 0u32..256 {
        let sub = sbox.substitute(i as u8);
        assert_eq!(sbox.inverse_substitute(sub), i as u8);
    }
}

#[test]
fn test_aes_sbox_nonlinearity() {
    let sbox = aes_sbox();
    let nl = sbox.nonlinearity();
    // AES S-box has nonlinearity of 112
    assert!(nl >= 100, "AES S-box nonlinearity too low: {nl}");
}

#[test]
fn test_identity_sbox() {
    let sbox = identity_sbox();
    for i in 0u32..256 {
        assert_eq!(sbox.substitute(i as u8), i as u8);
    }
}

#[test]
fn test_invalid_table_is_rejected() {
    let bad_table = [0u8; 256]; // all zeros, not a permutation
    assert!(!SBox::is_valid_table(&bad_table));
    let mut almost = [0u8; 256];
    for i in 0..256 {
        almost[i] = i as u8;
    }
    assert!(SBox::is_valid_table(&almost));
    almost[255] = 0;
    assert!(!SBox::is_valid_table(&almost));
    assert!(SBox::is_valid_table(&AES_SBOX));
}

#[test]
fn test_nonlinearity_exact_values() {
    assert_eq!(aes_sbox().nonlinearity(), 112);
    assert_eq!(identity_sbox().nonlinearity(), 0);
    assert_eq!(SBox::from_seed(42).nonlinearity(), 102);
}

#[test]
fn test_seeded_table_values() {
    let sbox = SBox::from_seed(42);
    assert_eq!(&sbox.table()[..8], &[198u8, 166, 154, 0, 218, 187, 77, 91][..]);
}

#[test]
fn test_inverse_then_substitute() {
    let sbox = aes_sbox();
    for y in 0u32..256 {
        assert_eq!(sbox.substitute(sbox.inverse_substitute(y as u8)), y as u8);
    }
    assert_eq!(sbox.substitute(0x00), 0x63);
    assert_eq!(sbox.inverse_substitute(0x63), 0x00);
    let rebuilt = SBox::new(*sbox.table());
    assert_eq!(rebuilt.table(), sbox.table());
}

use feistel_net::feistel::{BalancedFeistel, UnbalancedFeistel};
use feistel_net::key_schedule::KeySchedule;

#[test]
fn test_balanced_roundtrip() {
    let schedule = KeySchedule::new(b"test-key-12345", 16);
    let cipher = BalancedFeistel::new(schedule.clone(), 16);
    let plaintext: u64 = 0x0123456789abcdef;
    let keys = schedule.all_keys().to_vec();
    let ct = cipher.encrypt_block(plaintext, &keys);
    let pt = cipher.decrypt_block(ct, &keys);
    assert_eq!(pt, plaintext);
}

#[test]
fn test_balanced_different_inputs_differ() {
    let schedule = KeySchedule::new(b"key", 16);
    let cipher = BalancedFeistel::new(schedule.clone(), 16);
    let keys = schedule.all_keys().to_vec();
    let ct1 = cipher.encrypt_block(0x0000000000000000, &keys);
    let ct2 = cipher.encrypt_block(0x0000000000000001, &keys);
    assert_ne!(ct1, ct2);
}

#[test]
fn test_balanced_different_keys_differ() {
    let s1 = KeySchedule::new(b"key1", 16);
    let s2 = KeySchedule::new(b"key2", 16);
    let c1 = BalancedFeistel::new(s1.clone(), 16);
    let c2 = BalancedFeistel::new(s2.clone(), 16);
    let pt = 0xdeadbeefcafe1234;
    let ct1 = c1.encrypt_block(pt, s1.all_keys());
    let ct2 = c2.encrypt_block(pt, s2.all_keys());
    assert_ne!(ct1, ct2);
}

#[test]
fn test_balanced_avalanche() {
    let schedule = KeySchedule::new(b"avalanche-key", 16);
    let cipher = BalancedFeistel::new(schedule.clone(), 16);
    let keys = schedule.all_keys().to_vec();
    let base = cipher.encrypt_block(0x1234567890abcdef, &keys);
    let mut total_flips = 0u32;
    for bit in 0..64 {
        let flipped = 0x1234567890abcdef ^ (1u64 << bit);
        let ct = cipher.encrypt_block(flipped, &keys);
        total_flips += (base ^ ct).count_ones();
    }
    let avg = total_flips as f64 / 64.0;
    // Should be near 32 (half of 64 bits)
    assert!(avg > 16.0, "Block avalanche too weak: avg={avg}");
}

#[test]
fn test_unbalanced_roundtrip() {
    let schedule = KeySchedule::new(b"unbal-key", 12);
    let cipher = UnbalancedFeistel::new(12);
    let keys = schedule.all_keys().to_vec();
    let plaintext: u64 = 0x1234_5678_abcd_ef01;
    let ct = cipher.encrypt_block(plaintext, &keys);
    let pt = cipher.decrypt_block(ct, &keys);
    assert_eq!(pt, plaintext);
}

#[test]
fn test_balanced_zero_rounds_is_swap() {
    let schedule = KeySchedule::new(b"key", 0);
    let cipher = BalancedFeistel::new(schedule.clone(), 0);
    let keys = schedule.all_keys().to_vec();
    let pt: u64 = 0x1111222233334444;
    let ct = cipher.encrypt_block(pt, &keys);
    let pt_high = (pt >> 32) as u32;
    let pt_low = (pt & 0xFFFFFFFF) as u32;
    let expected = ((pt_low as u64) << 32) | (pt_high as u64);
    assert_eq!(ct, expected);
}

#[test]
fn test_balanced_known_ciphertext() {
    let schedule = KeySchedule::new(b"key", 4);
    let cipher = BalancedFeistel::new(schedule.clone(), 4);
    let ct = cipher.encrypt_block(0x0123456789abcdef, schedule.all_keys());
    assert_eq!(ct, 0xcc50f486f41c6858);
    assert_eq!(cipher.decrypt_block(ct, schedule.all_keys()), 0x0123456789abcdef);
}

#[test]
fn test_unbalanced_known_ciphertext() {
    let schedule = KeySchedule::new(b"key", 4);
    let cipher = UnbalancedFeistel::new(4);
    let ct = cipher.encrypt_block(0x0123456789abcdef, schedule.all_keys());
    assert_eq!(ct, 0xefa92c87f3356647);
}

#[test]
fn test_encrypt_of_decrypt_is_identity() {
    let schedule = KeySchedule::new(b"other-direction", 8);
    let keys = schedule.all_keys();
    let balanced = BalancedFeistel::new(schedule.clone(), 8);
    let unbalanced = UnbalancedFeistel::new(8);
    for block in [0u64, 1, 0xffff_ffff_ffff_ffff, 0x8000_0000_0000_0001, 0x0f0f_f0f0_1234_4321] {
        assert_eq!(balanced.encrypt_block(balanced.decrypt_block(block, keys), keys), block);
        assert_eq!(unbalanced.encrypt_block(unbalanced.decrypt_block(block, keys), keys), block);
    }
}

#[test]
fn test_rounds_limited_by_key_count() {
    // A cipher with more rounds than keys uses every key once.
    let schedule = KeySchedule::new(b"key", 4);
    let long = BalancedFeistel::new(schedule.clone(), 10);
    let exact = BalancedFeistel::new(schedule.clone(), 4);
    let keys = schedule.all_keys();
    assert_eq!(long.encrypt_block(0x0123456789abcdef, keys), exact.encrypt_block(0x0123456789abcdef, keys));
    assert_eq!(long.num_rounds(), 10);
    // With fewer rounds than keys only the first keys are used.
    let short = BalancedFeistel::new(schedule.clone(), 2);
    let first_two = &keys[..2];
    assert_eq!(short.encrypt_block(42, keys), exact_two(first_two));
}

fn exact_two(keys: &[u64]) -> u64 {
    BalancedFeistel::from_key(b"unused", 2).encrypt_block(42, keys)
}

#[test]
fn test_unbalanced_zero_rounds_is_swap() {
    let cipher = UnbalancedFeistel::new(0);
    let keys = [1u64, 2, 3];
    assert_eq!(cipher.encrypt_block(0xaaaa_bbbb_cccc_dddd, &keys), 0xcccc_dddd_aaaa_bbbb);
    let no_keys: [u64; 0] = [];
    let cipher = UnbalancedFeistel::new(5);
    assert_eq!(cipher.decrypt_block(0xaaaa_bbbb_cccc_dddd, &no_keys), 0xcccc_dddd_aaaa_bbbb);
}

use feistel_net::round::{avalanche_counts, RoundFunction, SimpleRound};
use feistel_net::sbox::identity_sbox;

#[test]
fn test_round_deterministic() {
    let rf = SimpleRound::aes();
    let input = 0xdeadbeef;
    let key = 0x1234567890abcdef;
    assert_eq!(rf.round(input, key), rf.round(input, key));
}

#[test]
fn test_round_differs_per_key() {
    let rf = SimpleRound::aes();
    let input = 0x42;
    let out1 = rf.round(input, 0x1111);
    let out2 = rf.round(input, 0x2222);
    assert_ne!(out1, out2);
}

#[test]
fn test_avalanche() {
    let rf = SimpleRound::aes();
    let (_, _, total) = avalanche_counts(&rf, 0x12345678, 0xabcdef);
    let avg = total as f64 / 32.0;
    // Good avalanche: average flips should be close to 16 (half of 32 bits)
    assert!(avg > 4.0, "Avalanche too weak: avg={avg}");
}

#[test]
fn test_round_known_values() {
    let rf = SimpleRound::new(identity_sbox());
    assert_eq!(rf.round(0x12345678, 0x1111222233334444), 0xc1e19494);
    let aes = SimpleRound::aes();
    assert_eq!(aes.round(0, 0), 0x8d8d8d8d);
}

#[test]
fn test_avalanche_known_counts() {
    let aes = SimpleRound::aes();
    assert_eq!(avalanche_counts(&aes, 0x12345678, 0xabcdef), (2, 7, 141));
    // With the identity S-box the round is linear: every flip moves one bit.
    let linear = SimpleRound::new(identity_sbox());
    assert_eq!(avalanche_counts(&linear, 0x12345678, 0xabcdef), (1, 1, 32));
}

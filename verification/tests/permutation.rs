use feistel_net::permutation::Permutation;

#[test]
fn test_permute_roundtrip() {
    let perm = Permutation::reverse(8);
    let val: u64 = 0b10110011;
    let p = perm.permute(val, 8);
    let inv = perm.inverse_permute(p, 8);
    assert_eq!(inv, val);
}

#[test]
fn test_reverse_permutation() {
    let perm = Permutation::reverse(8);
    // 0b10110011 reversed is 0b11001101
    assert_eq!(perm.permute(0b10110011u64, 8), 0b11001101);
}

#[test]
fn test_rotate_permutation() {
    let perm = Permutation::rotate_left(4, 1);
    // 0b1010 rotated left by 1 in 4-bit = 0b0101
    assert_eq!(perm.permute(0b1010u64, 4), 0b0101);
}

#[test]
fn test_rotate_roundtrip_both_orders() {
    let perm = Permutation::rotate_left(16, 5);
    for val in [0u64, 1, 0xffff, 0x8001, 0x1234] {
        assert_eq!(perm.inverse_permute(perm.permute(val, 16), 16), val);
        assert_eq!(perm.permute(perm.inverse_permute(val, 16), 16), val);
    }
    assert_eq!(perm.permute(1, 16), 1 << 5);
    assert_eq!(perm.permute(1 << 15, 16), 1 << 4);
}

#[test]
fn test_bits_above_width_are_dropped() {
    let perm = Permutation::reverse(4);
    assert_eq!(perm.permute(0b1_0000_0001, 4), 0b1000);
}

#[test]
fn test_non_bijective_table_keeps_last_preimage() {
    // Positions 0 and 2 both map to 1: the inverse of 1 is the last of them.
    let perm = Permutation::new(vec![1, 0, 1]);
    assert_eq!(perm.inverse_permute(0b010, 3), 0b100);
    // Position 2 has no preimage, so its inverse is 0.
    assert_eq!(perm.inverse_permute(0b100, 3), 0b001);
    assert_eq!(perm.permute(0b101, 3), 0b010);
}

#[test]
fn test_full_width_reverse() {
    let perm = Permutation::reverse(64);
    assert_eq!(perm.permute(1, 64), 1u64 << 63);
    assert_eq!(perm.inverse_permute(1u64 << 63, 64), 1);
}

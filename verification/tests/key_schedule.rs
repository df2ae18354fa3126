use feistel_net::key_schedule::KeySchedule;

#[test]
fn test_keys_are_unique() {
    let ks = KeySchedule::new(b"my-secret-key", 16);
    assert!(ks.keys_are_unique());
}

#[test]
fn test_deterministic() {
    let ks1 = KeySchedule::new(b"test-key", 8);
    let ks2 = KeySchedule::new(b"test-key", 8);
    for i in 0..8 {
        assert_eq!(ks1.round_key(i), ks2.round_key(i));
    }
}

#[test]
fn test_different_keys_differ() {
    let ks1 = KeySchedule::new(b"key-one", 4);
    let ks2 = KeySchedule::new(b"key-two", 4);
    let mut any_different = false;
    for i in 0..4 {
        if ks1.round_key(i) != ks2.round_key(i) {
            any_different = true;
            break;
        }
    }
    assert!(any_different);
}

#[test]
fn test_num_rounds() {
    let ks = KeySchedule::new(b"key", 32);
    assert_eq!(ks.num_rounds(), 32);
    assert_eq!(ks.all_keys().len(), 32);
}

#[test]
fn test_known_round_keys() {
    let empty = KeySchedule::new(b"", 2);
    assert_eq!(empty.all_keys(), &[0xa720142197a8c245u64, 0xa0c92f9093a39bdd][..]);
    let ks = KeySchedule::new(b"key", 3);
    assert_eq!(ks.round_key(0), 0x1646c6aa94b9d09b);
    assert_eq!(ks.round_key(1), 0x880f722d220789c0);
    assert_eq!(ks.round_key(2), 0x7ef77ca5223bb081);
}

#[test]
fn test_zero_rounds_schedule() {
    let ks = KeySchedule::new(b"anything", 0);
    assert_eq!(ks.num_rounds(), 0);
    assert!(ks.all_keys().is_empty());
    assert!(ks.keys_are_unique());
}

#[test]
fn test_prefix_of_longer_schedule() {
    let short = KeySchedule::new(b"prefix", 3);
    let long = KeySchedule::new(b"prefix", 10);
    assert_eq!(short.all_keys(), &long.all_keys()[..3]);
}

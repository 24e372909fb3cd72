use titun::wireguard::anti_replay::{AntiReplay, WINDOW};

#[test]
fn accepts_each_counter_once() {
    let mut ar = AntiReplay::new();
    for i in 0..20000u64 {
        assert!(ar.check_and_update(i));
        assert!(!ar.check_and_update(i));
    }
    assert_eq!(ar.highest(), 19999);
}

#[test]
fn accepts_reordering_within_window() {
    let mut ar = AntiReplay::new();
    assert!(ar.check_and_update(5000));
    assert!(ar.check_and_update(5000 - WINDOW + 1));
    assert!(ar.check_and_update(4500));
    assert!(!ar.check_and_update(4500));
    assert!(ar.check_and_update(4999));
    assert!(ar.check_and_update(5001));
    assert!(!ar.check_and_update(5000));
}

#[test]
fn rejects_older_than_window() {
    let mut ar = AntiReplay::new();
    assert!(ar.check_and_update(WINDOW));
    assert!(!ar.check_and_update(0));
    assert!(ar.check_and_update(1));
    assert!(ar.check_and_update(WINDOW + 1));
    assert!(!ar.check_and_update(1));
    assert!(ar.check_and_update(2));
}

#[test]
fn large_jump_clears_window() {
    let mut ar = AntiReplay::new();
    assert!(ar.check_and_update(3));
    assert!(ar.check_and_update(3 + 10 * WINDOW));
    assert!(!ar.check_and_update(3));
    assert!(ar.check_and_update(3 + 9 * WINDOW + 1));
    assert!(ar.check_and_update(3 + 10 * WINDOW - 1));
    assert!(!ar.check_and_update(3 + 10 * WINDOW));
    assert!(ar.check_and_update(u64::MAX));
    assert!(!ar.check_and_update(u64::MAX));
    assert!(ar.check_and_update(u64::MAX - 1));
}

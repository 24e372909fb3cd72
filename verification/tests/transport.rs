use sodiumoxide::crypto::aead::chacha20poly1305_ietf::{open, Key, Nonce};
use titun::wireguard::transport::{Transport, TransportError, HEADER_LEN, OVERHEAD};
use titun::wireguard::types::{Id, NANOS_PER_SEC, REJECT_AFTER_MESSAGES, REKEY_AFTER_MESSAGES};

const SEC: u64 = NANOS_PER_SEC;

fn sessions() -> (Transport, Transport) {
    sodiumoxide::init().unwrap();
    let k1 = [0x11u8; 32];
    let k2 = [0x22u8; 32];
    let a = Transport::new_from_keys(Id([1, 2, 3, 4]), Id([5, 6, 7, 8]), true, k1, k2, 0);
    let b = Transport::new_from_keys(Id([5, 6, 7, 8]), Id([1, 2, 3, 4]), false, k2, k1, 0);
    (a, b)
}

#[test]
fn round_trip() {
    let (mut a, mut b) = sessions();
    for len in [0usize, 1, 15, 16, 17, 84, 1000, 1472] {
        let plain: Vec<u8> = (0..len).map(|i| (i * 7) as u8).collect();
        let wire = a.encrypt(&plain, 5).unwrap();
        assert_eq!(wire.len(), len + 32);
        assert_eq!(wire.len(), len + OVERHEAD);
        assert_eq!(b.decrypt(&wire, 6), Ok(plain.clone()));
        let back = b.encrypt(&plain, 7).unwrap();
        assert_eq!(a.decrypt(&back, 8), Ok(plain));
    }
}

#[test]
fn message_layout() {
    let (mut a, _) = sessions();
    a.skip_to(0x0102030405060708);
    let wire = a.encrypt(b"hello", 1).unwrap();
    assert_eq!(&wire[0..4], &[4, 0, 0, 0]);
    assert_eq!(&wire[4..8], &[5, 6, 7, 8]);
    assert_eq!(&wire[8..16], &[8, 7, 6, 5, 4, 3, 2, 1]);
    assert_eq!(wire.len(), HEADER_LEN + 5 + 16);
    assert_eq!(a.get_send_counter(), 0x0102030405060709);
    assert_eq!(a.get_last_send(), Some(1));
}

#[test]
fn ciphertext_is_chacha20poly1305_under_the_counter() {
    let (mut a, _) = sessions();
    a.skip_to(3);
    let wire = a.encrypt(b"some inner packet", 1).unwrap();
    let mut n = [0u8; 12];
    n[4..].copy_from_slice(&3u64.to_le_bytes());
    let plain = open(&wire[16..], None, &Nonce(n), &Key([0x11u8; 32])).unwrap();
    assert_eq!(plain, b"some inner packet");
}

#[test]
fn counter_clamp() {
    let (mut a, mut b) = sessions();
    a.skip_to(REJECT_AFTER_MESSAGES - 1);
    assert_eq!(a.get_send_counter(), REJECT_AFTER_MESSAGES - 1);
    let wire = a.encrypt(b"last", 1).unwrap();
    assert_eq!(a.get_send_counter(), REJECT_AFTER_MESSAGES);
    assert_eq!(b.decrypt(&wire, 1), Ok(b"last".to_vec()));
    assert_eq!(a.encrypt(b"more", 2), Err(TransportError::CounterExhausted));
    assert_eq!(a.get_send_counter(), REJECT_AFTER_MESSAGES);
    assert_eq!(a.encrypt(b"more", 3), Err(TransportError::CounterExhausted));
    assert_eq!(a.get_send_counter(), REJECT_AFTER_MESSAGES);
    assert_eq!(a.get_last_send(), Some(1));
}

#[test]
fn skip_to_never_goes_back() {
    let (mut a, _) = sessions();
    a.skip_to(10);
    a.skip_to(5);
    assert_eq!(a.get_send_counter(), 10);
}

#[test]
fn constants() {
    assert_eq!(REKEY_AFTER_MESSAGES, u64::MAX - (1 << 16));
    assert_eq!(REJECT_AFTER_MESSAGES, u64::MAX - (1 << 4));
    assert_eq!(titun::wireguard::types::REKEY_AFTER_TIME, 120);
    assert_eq!(titun::wireguard::types::REJECT_AFTER_TIME, 180);
    assert_eq!(titun::wireguard::types::REKEY_ATTEMPT_TIME, 90);
    assert_eq!(titun::wireguard::types::REKEY_TIMEOUT, 5);
    assert_eq!(titun::wireguard::types::KEEPALIVE_TIMEOUT, 10);
}

#[test]
fn decrypt_checks_in_order() {
    let (mut a, mut b) = sessions();
    let wire = a.encrypt(b"payload", 1).unwrap();
    assert_eq!(b.decrypt(&wire[..31], 1), Err(TransportError::TooShort));
    assert_eq!(b.decrypt(&[], 1), Err(TransportError::TooShort));
    let mut bad = wire.clone();
    bad[0] = 1;
    assert_eq!(b.decrypt(&bad, 1), Err(TransportError::BadHeader));
    let mut bad = wire.clone();
    bad[3] = 1;
    assert_eq!(b.decrypt(&bad, 1), Err(TransportError::BadHeader));
    assert_eq!(b.decrypt(&wire, 180 * SEC), Err(TransportError::Expired));
    let mut bad = wire.clone();
    bad[8..16].copy_from_slice(&REJECT_AFTER_MESSAGES.to_le_bytes());
    assert_eq!(b.decrypt(&bad, 1), Err(TransportError::CounterExhausted));
    let mut bad = wire.clone();
    bad[8] = 1;
    assert_eq!(b.decrypt(&bad, 1), Err(TransportError::Decryption));
    let mut bad = wire.clone();
    let n = bad.len();
    bad[n - 1] ^= 1;
    assert_eq!(b.decrypt(&bad, 1), Err(TransportError::Decryption));
    // None of that has touched the window or the time of the last receipt.
    assert_eq!(b.get_last_recv(), None);
    assert_eq!(b.decrypt(&wire, 180 * SEC - 1), Ok(b"payload".to_vec()));
    assert_eq!(b.get_last_recv(), Some(180 * SEC - 1));
    assert_eq!(b.decrypt(&wire, 2), Err(TransportError::Replay));
    assert_eq!(b.get_last_recv(), Some(180 * SEC - 1));
}

#[test]
fn wrong_key_does_not_open() {
    let (mut a, _) = sessions();
    let mut c = Transport::new_from_keys(Id([5, 6, 7, 8]), Id([1, 2, 3, 4]), false, [3; 32], [4; 32], 0);
    let wire = a.encrypt(b"payload", 1).unwrap();
    assert_eq!(c.decrypt(&wire, 1), Err(TransportError::Decryption));
}

#[test]
fn too_old_counter_is_a_replay() {
    let (mut a, mut b) = sessions();
    let first = a.encrypt(b"first", 1).unwrap();
    a.skip_to(5000);
    let late = a.encrypt(b"late", 1).unwrap();
    assert_eq!(b.decrypt(&late, 1), Ok(b"late".to_vec()));
    assert_eq!(b.decrypt(&first, 1), Err(TransportError::Replay));
}

#[test]
fn timers() {
    let (mut a, mut b) = sessions();
    // Age.
    assert!(!a.should_delete(540 * SEC - 1));
    assert!(a.should_delete(540 * SEC));
    assert!(!a.should_rekey(120 * SEC - 1));
    assert!(a.should_rekey(120 * SEC));
    assert!(!b.should_rekey(130 * SEC - 1));
    assert!(b.should_rekey(130 * SEC));
    // Nothing received: no keepalive.
    assert!(!a.should_keepalive());
    // Messages sent.
    let mut c = Transport::new_from_keys(Id([0; 4]), Id([1; 4]), true, [1; 32], [2; 32], 0);
    c.skip_to(REKEY_AFTER_MESSAGES);
    assert!(c.should_rekey(0));
    let mut d = Transport::new_from_keys(Id([0; 4]), Id([1; 4]), true, [1; 32], [2; 32], 0);
    d.skip_to(REKEY_AFTER_MESSAGES - 1);
    assert!(!d.should_rekey(0));
    // Received ten seconds after the making, nothing sent: a keepalive is owed.
    let w = a.encrypt(b"x", SEC).unwrap();
    b.decrypt(&w, 10 * SEC - 1).unwrap();
    assert!(!b.should_keepalive());
    let w = a.encrypt(b"x", SEC).unwrap();
    b.decrypt(&w, 10 * SEC).unwrap();
    assert!(b.should_keepalive());
    // Sent after that: none is owed.
    b.encrypt(b"y", 11 * SEC).unwrap();
    assert!(!b.should_keepalive());
    assert!(!b.should_rekey(12 * SEC));
    // Sent more than fifteen seconds after the last receipt: rekey.
    b.encrypt(b"y", 25 * SEC).unwrap();
    assert!(!b.should_rekey(26 * SEC));
    b.encrypt(b"y", 25 * SEC + 1).unwrap();
    assert!(b.should_rekey(26 * SEC));
    // Sent more than fifteen seconds after the making, nothing received.
    let mut e = Transport::new_from_keys(Id([0; 4]), Id([1; 4]), true, [1; 32], [2; 32], 100 * SEC);
    e.encrypt(b"z", 115 * SEC).unwrap();
    assert!(!e.should_rekey(116 * SEC));
    e.encrypt(b"z", 115 * SEC + 1).unwrap();
    assert!(e.should_rekey(116 * SEC));
    // A clock that runs backwards makes no session old.
    assert!(!e.should_delete(0));
    assert_eq!(e.get_self_id(), Id([0; 4]));
}

use blake2_rfc::blake2s::blake2s;
use tai64::Tai64N;
use titun::wireguard::cookie::{
    check_macs, cookie_reply, cookie_reply_with_nonce, cookie_sign, process_cookie_reply, verify_mac2,
    Cookie, MacVerdict, COOKIE_LIFETIME, COOKIE_REPLY_LEN,
};
use titun::wireguard::handshake::{
    bytes_eq, frame, initiate, mac1, process_initiation, process_response, responde, verify_mac1,
    HandshakeError, Timestamp,
};
use titun::wireguard::noise::{NoiseError, HS};
use titun::wireguard::transport::Transport;
use titun::wireguard::types::{Id, PeerInfo, WgInfo, NANOS_PER_SEC};

fn key(seed: u8) -> [u8; 32] {
    [seed; 32]
}

fn infos(psk: Option<[u8; 32]>) -> (WgInfo, WgInfo, PeerInfo, PeerInfo) {
    sodiumoxide::init().unwrap();
    let a = WgInfo::new(psk, key(1));
    let b = WgInfo::new(psk, key(2));
    let peer_b = PeerInfo { peer_pubkey: b.pubkey, endpoint: None, allowed_ips: vec![] };
    let peer_a = PeerInfo { peer_pubkey: a.pubkey, endpoint: None, allowed_ips: vec![] };
    (a, b, peer_a, peer_b)
}

fn expected_mac1(pubkey: &[u8; 32], body: &[u8]) -> Vec<u8> {
    let mut input = b"mac1--".to_vec();
    input.extend_from_slice(pubkey);
    let k = blake2s(32, &[], &input);
    blake2s(16, k.as_bytes(), body).as_bytes().to_vec()
}

#[test]
fn mac1_is_keyed_by_the_hash_of_label_and_public_key() {
    let pk = [0x55u8; 32];
    assert_eq!(mac1(&pk, b"some message"), expected_mac1(&pk, b"some message"));
    assert_ne!(mac1(&pk, b"some message"), b"some message".to_vec());
    assert_eq!(mac1(&pk, b"").len(), 16);
    assert_ne!(mac1(&pk, b"a"), mac1(&[0x56u8; 32], b"a"));
}

#[test]
fn frame_appends_mac1_and_an_empty_mac2() {
    let pk = [9u8; 32];
    let m = frame(&[1, 0, 0, 0, 7, 7, 7, 7], &[3u8; 10], &pk);
    assert_eq!(m.len(), 8 + 10 + 32);
    assert_eq!(&m[0..8], &[1, 0, 0, 0, 7, 7, 7, 7]);
    assert_eq!(&m[8..18], &[3u8; 10]);
    assert_eq!(m[18..34].to_vec(), expected_mac1(&pk, &m[0..18]));
    assert_eq!(&m[34..50], &[0u8; 16]);
    assert!(verify_mac1(&pk, &m, 18));
    assert!(!verify_mac1(&pk, &m, 17));
    assert!(!verify_mac1(&[8u8; 32], &m, 18));
    assert!(!verify_mac1(&pk, &m[..33], 18));
    assert!(verify_mac1(&pk, &m[..34], 18));
}

#[test]
fn bytes_are_compared_whole() {
    assert!(bytes_eq(b"", b""));
    assert!(bytes_eq(b"abc", b"abc"));
    assert!(!bytes_eq(b"abc", b"abd"));
    assert!(!bytes_eq(b"abc", b"ab"));
    assert!(!bytes_eq(b"ab", b"abc"));
}

#[test]
fn initiation_and_response() {
    let (a, b, _peer_a, peer_b) = infos(None);
    let id_a = Id([1, 2, 3, 4]);
    let id_b = Id([5, 6, 7, 8]);
    let before = Tai64N::now();
    let (init, mut hs_a) = initiate(&a, &peer_b, id_a).unwrap();
    let after = Tai64N::now();
    assert_eq!(init.len(), 148);
    assert_eq!(&init[0..4], &[1, 0, 0, 0]);
    assert_eq!(&init[4..8], &[1, 2, 3, 4]);
    assert_eq!(init[116..132].to_vec(), expected_mac1(&b.pubkey, &init[..116]));
    assert_eq!(&init[132..148], &[0u8; 16]);
    assert!(hs_a.get_is_initiator());
    assert_eq!(hs_a.messages(), 1);

    let mut r = process_initiation(&b, &init).unwrap();
    assert_eq!(r.peer_pubkey, a.pubkey);
    assert_eq!(r.peer_id, id_a);
    assert!(!r.handshake_state.get_is_initiator());
    assert_eq!(r.handshake_state.messages(), 1);
    // The timestamp is the sender's clock.
    let lo = Timestamp { secs: (before.0).0, nanos: before.1 };
    let hi = Timestamp { secs: (after.0).0, nanos: after.1 };
    assert!(!lo.later_than(&r.timestamp));
    assert!(!r.timestamp.later_than(&hi));

    // The message without its MAC2 is enough.
    assert!(process_initiation(&b, &init[..132]).is_ok());

    let resp = responde(&b, &mut r, id_b).unwrap();
    assert_eq!(resp.len(), 92);
    assert_eq!(&resp[0..4], &[2, 0, 0, 0]);
    assert_eq!(&resp[4..8], &[5, 6, 7, 8]);
    assert_eq!(&resp[8..12], &[1, 2, 3, 4]);
    assert_eq!(resp[60..76].to_vec(), expected_mac1(&a.pubkey, &resp[..60]));
    assert_eq!(&resp[76..92], &[0u8; 16]);
    assert_eq!(r.handshake_state.messages(), 2);

    assert_eq!(process_response(&a, &mut hs_a, &resp[..76]), Ok(id_b));
    assert_eq!(hs_a.messages(), 2);

    // Both sides hold the same pair of keys, crossed.
    let mut ta = Transport::new_from_hs(id_a, id_b, hs_a, 0);
    let mut tb = Transport::new_from_hs(id_b, id_a, r.handshake_state, 0);
    let wire = ta.encrypt(b"to b", 1).unwrap();
    assert_eq!(tb.decrypt(&wire, 1), Ok(b"to b".to_vec()));
    let wire = tb.encrypt(b"to a", 1).unwrap();
    assert_eq!(ta.decrypt(&wire, 1), Ok(b"to a".to_vec()));
    assert_eq!(ta.get_self_id(), id_a);
    assert_eq!(ta.get_peer_id(), id_b);
}

#[test]
fn initiation_is_refused() {
    let (a, b, _peer_a, peer_b) = infos(None);
    let (init, _) = initiate(&a, &peer_b, Id([0; 4])).unwrap();
    assert_eq!(process_initiation(&b, &init[..131]).err(), Some(HandshakeError::TooShort));
    assert_eq!(process_initiation(&b, &[]).err(), Some(HandshakeError::TooShort));
    let mut forged = init.clone();
    forged[131] ^= 1;
    assert_eq!(process_initiation(&b, &forged).err(), Some(HandshakeError::Mac1));
    // Meant for someone else.
    let c = WgInfo::new(None, key(3));
    assert_eq!(process_initiation(&c, &init).err(), Some(HandshakeError::Mac1));
    // A genuine MAC1 over a forged body: the Noise state refuses.
    let mut forged = init.clone();
    forged[60] ^= 1;
    let m = expected_mac1(&b.pubkey, &forged[..116]);
    forged[116..132].copy_from_slice(&m);
    assert_eq!(
        process_initiation(&b, &forged).err(),
        Some(HandshakeError::Noise(NoiseError::Decryption))
    );
}

#[test]
fn response_is_refused() {
    let (a, b, _peer_a, peer_b) = infos(None);
    let (init, hs_a) = initiate(&a, &peer_b, Id([0; 4])).unwrap();
    let mut r = process_initiation(&b, &init).unwrap();
    let resp = responde(&b, &mut r, Id([1; 4])).unwrap();
    let mut hs = hs_a.fork();
    assert_eq!(process_response(&a, &mut hs, &resp[..75]), Err(HandshakeError::TooShort));
    assert_eq!(hs.messages(), 1);
    let mut forged = resp.clone();
    forged[75] ^= 1;
    assert_eq!(process_response(&a, &mut hs, &forged), Err(HandshakeError::Mac1));
    assert_eq!(hs.messages(), 1);
    let mut forged = resp.clone();
    forged[30] ^= 1;
    let m = expected_mac1(&a.pubkey, &forged[..60]);
    forged[60..76].copy_from_slice(&m);
    assert_eq!(
        process_response(&a, &mut hs, &forged),
        Err(HandshakeError::Noise(NoiseError::Decryption))
    );
    // The state has read a message and reads no other.
    assert_eq!(hs.messages(), 2);
    assert!(process_response(&a, &mut hs, &resp).is_err());
    // An untouched copy of the state completes.
    let mut hs = hs_a;
    assert_eq!(process_response(&a, &mut hs, &resp), Ok(Id([1; 4])));
    // The responder answers once.
    assert!(responde(&b, &mut r, Id([2; 4])).is_err());
}

#[test]
fn noise_state_takes_turns() {
    sodiumoxide::init().unwrap();
    let pk_b = WgInfo::new(None, key(2)).pubkey;
    let mut i = HS::new(true, b"prologue", &key(1), Some(pk_b), None);
    let mut r = HS::new(false, b"prologue", &key(2), None, None);
    assert!(i.read_message(&[0u8; 48]).is_err());
    assert_eq!(i.messages(), 0);
    assert!(r.write_message(&[]).is_err());
    assert_eq!(r.messages(), 0);
    let m1 = i.write_message(b"payload").unwrap();
    assert_eq!(m1.len(), 7 + 96);
    assert!(i.write_message(b"again").is_err());
    assert_eq!(i.messages(), 1);
    assert_eq!(r.read_message(&m1), Ok(b"payload".to_vec()));
    let m2 = r.write_message(b"").unwrap();
    assert_eq!(m2.len(), 48);
    assert_eq!(i.read_message(&m2), Ok(vec![]));
    assert_eq!(i.messages(), 2);
    assert_eq!(r.messages(), 2);
    let (si, ri) = i.get_ciphers();
    let (sr, rr) = r.get_ciphers();
    assert_eq!(si, rr);
    assert_eq!(ri, sr);
    assert_ne!(si, ri);
    // A different prologue does not complete.
    let mut i = HS::new(true, b"prologue", &key(1), Some(pk_b), None);
    let mut r = HS::new(false, b"other", &key(2), None, None);
    let m1 = i.write_message(b"payload").unwrap();
    assert_eq!(r.read_message(&m1), Err(NoiseError::Decryption));
    // Too short a message.
    let mut r = HS::new(false, b"prologue", &key(2), None, None);
    assert_eq!(r.read_message(&m1[..95]), Err(NoiseError::TooShort));
}

#[test]
fn cookie_signs_the_last_sixteen_bytes() {
    let cookie = Cookie { value: [7u8; 16], received: 1000 };
    let mut m: Vec<u8> = (0..148u8).collect();
    let before = m.clone();
    cookie_sign(&mut m, None, 0);
    assert_eq!(m, before);
    cookie_sign(&mut m, Some(&cookie), 1000 + COOKIE_LIFETIME * NANOS_PER_SEC);
    assert_eq!(m, before);
    cookie_sign(&mut m, Some(&cookie), 1000 + COOKIE_LIFETIME * NANOS_PER_SEC - 1);
    assert_eq!(&m[..132], &before[..132]);
    assert_eq!(m[132..].to_vec(), blake2s(16, &[7u8; 16], &before[..132]).as_bytes().to_vec());
    assert!(verify_mac2(&[7u8; 16], &m));
    assert!(!verify_mac2(&[8u8; 16], &m));
    assert!(!verify_mac2(&[7u8; 16], &before));
    assert!(!verify_mac2(&[7u8; 16], &m[..15]));
    let mut short = vec![1u8; 10];
    cookie_sign(&mut short, Some(&cookie), 1000);
    assert_eq!(short, vec![1u8; 10]);
    assert!(cookie.fresh(0));
    assert!(!cookie.fresh(1000 + COOKIE_LIFETIME * NANOS_PER_SEC));
}

#[test]
fn macs_are_judged() {
    let (a, b, _peer_a, peer_b) = infos(None);
    let (init, _) = initiate(&a, &peer_b, Id([0; 4])).unwrap();
    let cookie = [3u8; 16];
    assert_eq!(check_macs(&b.pubkey, &init, 116, false, &cookie), MacVerdict::Accept);
    assert_eq!(check_macs(&b.pubkey, &init, 116, true, &cookie), MacVerdict::SendCookie);
    let mut signed = init.clone();
    cookie_sign(&mut signed, Some(&Cookie { value: cookie, received: 0 }), 0);
    assert_eq!(check_macs(&b.pubkey, &signed, 116, true, &cookie), MacVerdict::Accept);
    assert_eq!(check_macs(&b.pubkey, &signed, 116, true, &[4u8; 16]), MacVerdict::SendCookie);
    assert_eq!(check_macs(&b.pubkey, &signed, 116, false, &[4u8; 16]), MacVerdict::Accept);
    let mut forged = signed.clone();
    forged[116] ^= 1;
    assert_eq!(check_macs(&b.pubkey, &forged, 116, true, &cookie), MacVerdict::Reject);
    assert_eq!(check_macs(&b.pubkey, &forged, 116, false, &cookie), MacVerdict::Reject);
}

#[test]
fn cookie_reply_round_trip() {
    sodiumoxide::init().unwrap();
    let pk = [0x21u8; 32];
    let m1 = [0x31u8; 16];
    let cookie = [0x41u8; 16];
    let reply = cookie_reply(&pk, Id([9, 8, 7, 6]), &m1, &cookie);
    assert_eq!(reply.len(), 64);
    assert_eq!(reply.len(), COOKIE_REPLY_LEN);
    assert_eq!(&reply[0..4], &[3, 0, 0, 0]);
    assert_eq!(&reply[4..8], &[9, 8, 7, 6]);
    assert_ne!(&reply[32..48], &cookie);
    let got = process_cookie_reply(&pk, &m1, &reply, 77).unwrap();
    assert_eq!(got.value, cookie);
    assert_eq!(got.received, 77);
    // Another nonce each time.
    assert_ne!(reply, cookie_reply(&pk, Id([9, 8, 7, 6]), &m1, &cookie));
    assert!(process_cookie_reply(&[0x22u8; 32], &m1, &reply, 0).is_err());
    assert!(process_cookie_reply(&pk, &[0x32u8; 16], &reply, 0).is_err());
    assert!(process_cookie_reply(&pk, &m1, &reply[..63], 0).is_err());
    let mut longer = reply.clone();
    longer.push(0);
    assert!(process_cookie_reply(&pk, &m1, &longer, 0).is_err());
    let mut forged = reply.clone();
    forged[40] ^= 1;
    assert!(process_cookie_reply(&pk, &m1, &forged, 0).is_err());
}

#[test]
fn cookie_reply_layout() {
    let pk = [0x21u8; 32];
    let nonce = [0x51u8; 24];
    let reply = cookie_reply_with_nonce(&pk, Id([1, 1, 1, 1]), &[2u8; 16], &[3u8; 16], &nonce);
    assert_eq!(&reply[8..32], &nonce);
    let mut input = b"cookie--".to_vec();
    input.extend_from_slice(&pk);
    let k = blake2s(32, &[], &input);
    let sealed = titun::crypto::xchacha20poly1305::encrypt(k.as_bytes(), &nonce, &[2u8; 16], &[3u8; 16]);
    assert_eq!(reply[32..].to_vec(), sealed);
}

#[test]
fn noise_state_that_read_too_little_has_read_nothing() {
    sodiumoxide::init().unwrap();
    let mut r = HS::new(false, b"prologue", &key(2), None, None);
    assert_eq!(r.read_message(&[]), Err(NoiseError::TooShort));
    assert_eq!(r.read_message(&[0u8; 95]), Err(NoiseError::TooShort));
    assert_eq!(r.messages(), 0);
    assert!(!r.has_failed());
    // It is still the responder's turn to read, not to write.
    assert_eq!(r.write_message(&[]), Err(NoiseError::OutOfTurn));
    assert_eq!(r.messages(), 0);
    // And it still reads a genuine message.
    let pk_b = WgInfo::new(None, key(2)).pubkey;
    let mut i = HS::new(true, b"prologue", &key(1), Some(pk_b), None);
    let m1 = i.write_message(b"payload").unwrap();
    assert_eq!(r.read_message(&m1), Ok(b"payload".to_vec()));
}

#[test]
fn first_message_is_read_by_a_fresh_responder() {
    sodiumoxide::init().unwrap();
    let pk_a = WgInfo::new(None, key(1)).pubkey;
    let pk_b = WgInfo::new(None, key(2)).pubkey;
    for psk in [None, Some([9u8; 32])] {
        let mut i = HS::new(true, b"prologue", &key(1), Some(pk_b), psk);
        let m1 = i.write_message(b"payload").unwrap();
        let (mut r, payload, rs) = HS::read_first(b"prologue", &key(2), psk, &m1);
        assert_eq!(payload, Ok(b"payload".to_vec()));
        assert_eq!(rs, Some(pk_a));
        assert_eq!(r.messages(), 1);
        assert!(!r.has_failed());
        assert!(!r.get_is_initiator());
        // The state goes on to answer, and both ends hold the same keys.
        let m2 = r.write_message(b"").unwrap();
        assert_eq!(i.read_message(&m2), Ok(vec![]));
        assert_eq!(i.get_ciphers().0, r.get_ciphers().1);
        assert_eq!(i.get_ciphers().1, r.get_ciphers().0);
        // The same message read again gives the same.
        let (_, again, rs2) = HS::read_first(b"prologue", &key(2), psk, &m1);
        assert_eq!(again, Ok(b"payload".to_vec()));
        assert_eq!(rs2, Some(pk_a));
        // Another prologue, key or pre-shared key does not read it.
        let (f, bad, _) = HS::read_first(b"other", &key(2), psk, &m1);
        assert_eq!(bad, Err(NoiseError::Decryption));
        assert!(f.has_failed());
        assert_eq!(f.messages(), 1);
        let (_, bad, _) = HS::read_first(b"prologue", &key(3), psk, &m1);
        assert!(bad.is_err());
        let other = if psk.is_some() { None } else { Some([9u8; 32]) };
        let (_, bad, _) = HS::read_first(b"prologue", &key(2), other, &m1);
        assert!(bad.is_err());
        // Too short a message is taken up by no state.
        let (mut f, short, rs) = HS::read_first(b"prologue", &key(2), psk, &m1[..95]);
        assert_eq!(short, Err(NoiseError::TooShort));
        assert_eq!(rs, None);
        assert_eq!(f.messages(), 0);
        assert!(!f.has_failed());
        assert_eq!(f.read_message(&m1), Ok(b"payload".to_vec()));
    }
}

#[test]
fn noise_state_that_refused_a_message_goes_no_further() {
    sodiumoxide::init().unwrap();
    let pk_b = WgInfo::new(None, key(2)).pubkey;
    let mut i = HS::new(true, b"prologue", &key(1), Some(pk_b), None);
    let mut m1 = i.write_message(b"payload").unwrap();
    m1[40] ^= 1;
    let mut r = HS::new(false, b"prologue", &key(2), None, None);
    assert_eq!(r.read_message(&m1), Err(NoiseError::Decryption));
    assert!(r.has_failed());
    assert_eq!(r.messages(), 1);
    assert_eq!(r.write_message(&[]), Err(NoiseError::Failed));
    assert_eq!(r.read_message(&m1), Err(NoiseError::Failed));
    assert_eq!(r.messages(), 1);
    assert!(!r.is_established());
    let copy = r.fork();
    assert!(copy.has_failed());
}

#[test]
fn keys_go_by_role() {
    use_keys();
}

fn use_keys() {
    let a = [1u8; 32];
    let b = [2u8; 32];
    assert_eq!(titun::wireguard::noise::keys_by_role(true, (a, b)), (a, b));
    assert_eq!(titun::wireguard::noise::keys_by_role(false, (a, b)), (b, a));
    assert_eq!(titun::wireguard::noise::overhead(0), 96);
    assert_eq!(titun::wireguard::noise::overhead(1), 48);
}

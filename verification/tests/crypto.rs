use titun::crypto::hchacha20::hchacha20;
use titun::crypto::xchacha20poly1305::{decrypt, encrypt};
use sodiumoxide::crypto::aead::xchacha20poly1305_ietf;
use sodiumoxide::crypto::secretbox;
use titun::crypto::{Crypto, DEFAULT_MAX_DIFF};

fn hex(s: &str) -> Vec<u8> {
    let s: Vec<u8> = s.bytes().filter(|b| !b.is_ascii_whitespace()).collect();
    s.chunks(2)
        .map(|c| u8::from_str_radix(std::str::from_utf8(c).unwrap(), 16).unwrap())
        .collect()
}

#[test]
fn hchacha20_vector() {
    let key = hex("000102030405060708090a0b0c0d0e0f101112131415161718191a1b1c1d1e1f");
    let input = hex("000000090000004a0000000031415927");
    let out = hchacha20(&input, &key);
    assert_eq!(
        out.to_vec(),
        hex("82413b4227b27bfed30e42508a877d73a0f9e4d58a74a853c12ec41326d3ecdc")
    );
}

#[test]
fn xchacha20poly1305_vector() {
    let plain = b"Ladies and Gentlemen of the class of '99: If I could offer you only one tip for the future, sunscreen would be it.";
    let ad = hex("50515253c0c1c2c3c4c5c6c7");
    let key = hex("808182838485868788898a8b8c8d8e8f909192939495969798999a9b9c9d9e9f");
    let nonce = hex("404142434445464748494a4b4c4d4e4f5051525354555657");
    let c = encrypt(&key, &nonce, &ad, plain);
    assert_eq!(c.len(), plain.len() + 16);
    assert_eq!(
        c[..plain.len()].to_vec(),
        hex("bd6d179d3e83d43b9576579493c0e939572a1700252bfaccbed2902c21396cbb
             731c7f1b0b4aa6440bf3a82f4eda7e39ae64c6708c54c216cb96b72e1213b452
             2f8c9ba40db5d945b11b69b982c1bb9e3f3fac2bc369488f76b2383565d3fff9
             21f9664c97637da9768812f615c68b13b52e")
    );
    assert_eq!(c[plain.len()..].to_vec(), hex("c0875924c1c7987947deafd8780acf49"));
    assert_eq!(decrypt(&key, &nonce, &ad, &c), Ok(plain.to_vec()));
}

#[test]
fn xchacha20poly1305_agrees_with_libsodium() {
    sodiumoxide::init().unwrap();
    let key = [0x42u8; 32];
    let mut nonce = [0u8; 24];
    for (i, b) in nonce.iter_mut().enumerate() {
        *b = (i * 11) as u8;
    }
    for len in [0usize, 1, 16, 63, 64, 65, 300] {
        let plain: Vec<u8> = (0..len).map(|i| i as u8).collect();
        let ours = encrypt(&key, &nonce, b"ad", &plain);
        let theirs = xchacha20poly1305_ietf::seal(
            &plain,
            Some(b"ad"),
            &xchacha20poly1305_ietf::Nonce(nonce),
            &xchacha20poly1305_ietf::Key(key),
        );
        assert_eq!(ours, theirs);
        assert_eq!(
            xchacha20poly1305_ietf::open(
                &ours,
                Some(b"ad"),
                &xchacha20poly1305_ietf::Nonce(nonce),
                &xchacha20poly1305_ietf::Key(key)
            ),
            Ok(plain.clone())
        );
        assert_eq!(decrypt(&key, &nonce, b"ad", &theirs), Ok(plain));
    }
}

#[test]
fn xchacha20poly1305_rejects_forgery() {
    let key = [1u8; 32];
    let nonce = [2u8; 24];
    let c = encrypt(&key, &nonce, b"ad", b"message");
    assert_eq!(decrypt(&key, &nonce, b"ad", &c), Ok(b"message".to_vec()));
    assert_eq!(decrypt(&key, &nonce, b"da", &c), Err(()));
    assert_eq!(decrypt(&[3u8; 32], &nonce, b"ad", &c), Err(()));
    assert_eq!(decrypt(&key, &[4u8; 24], b"ad", &c), Err(()));
    let mut other = nonce;
    other[0] ^= 1;
    assert_eq!(decrypt(&key, &other, b"ad", &c), Err(()));
    let mut other = nonce;
    other[23] ^= 1;
    assert_eq!(decrypt(&key, &other, b"ad", &c), Err(()));
    let mut forged = c.clone();
    forged[0] ^= 1;
    assert_eq!(decrypt(&key, &nonce, b"ad", &forged), Err(()));
    assert_eq!(decrypt(&key, &nonce, b"ad", &c[..15]), Err(()));
    assert_eq!(decrypt(&key, &nonce, b"ad", &[]), Err(()));
}

#[test]
fn encryption_and_decryption() {
    sodiumoxide::init().unwrap();
    let k = secretbox::gen_key();
    let cr = Crypto::new(k.0, DEFAULT_MAX_DIFF);
    let now: u64 = 1_500_000_000_000;

    let c = cr.encrypt(&[2, 0, 1, 7], now);
    let p = cr.decrypt(c.as_slice(), now);

    assert_eq!(p, Some(vec![2, 0, 1, 7]));
    assert_eq!(cr.decrypt(&[3, 4, 8, 1], now), None);

    // Two seconds later.
    assert!(cr.decrypt(c.as_slice(), now + 2000).is_none());

    let c1 = cr.encrypt(&[], now + 2000);
    let p = cr.decrypt(c1.as_slice(), now + 2000);

    assert_eq!(p, Some(vec![]));
}

#[test]
fn timed_message_layout() {
    sodiumoxide::init().unwrap();
    let cr = Crypto::new([9u8; 32], 1000);
    let tail = [5u8; 16];
    let t: u64 = 0x0102030405060708;
    let c = cr.encrypt_with(b"abc", &tail, t);
    assert_eq!(c.len(), 3 + 40);
    assert_eq!(&c[c.len() - 16..], &tail);
    let mut n = [0u8; 24];
    n[8..].copy_from_slice(&tail);
    let m = secretbox::open(&c[..c.len() - 16], &secretbox::Nonce(n), &secretbox::Key([9u8; 32])).unwrap();
    assert_eq!(m, [b'a', b'b', b'c', 1, 2, 3, 4, 5, 6, 7, 8]);
    // A random tail each time.
    assert_ne!(cr.encrypt(b"abc", t), cr.encrypt(b"abc", t));
}

#[test]
fn timed_message_tolerance() {
    sodiumoxide::init().unwrap();
    let cr = Crypto::new([9u8; 32], 1000);
    let c = cr.encrypt(b"abc", 5000);
    assert_eq!(cr.decrypt(&c, 4000), Some(b"abc".to_vec()));
    assert_eq!(cr.decrypt(&c, 6000), Some(b"abc".to_vec()));
    assert_eq!(cr.decrypt(&c, 3999), None);
    assert_eq!(cr.decrypt(&c, 6001), None);
    assert_eq!(cr.decrypt(&c[..39], 5000), None);
    let mut forged = c.clone();
    forged[1] ^= 1;
    assert_eq!(cr.decrypt(&forged, 5000), None);
    let mut forged = c.clone();
    let n = forged.len();
    forged[n - 1] ^= 1;
    assert_eq!(cr.decrypt(&forged, 5000), None);
    assert_eq!(Crypto::new([8u8; 32], 1000).decrypt(&c, 5000), None);
    assert_eq!(DEFAULT_MAX_DIFF, 1000);
}

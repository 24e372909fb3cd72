//! Symmetric cryptography that the tunnel needs beyond the Noise primitives:
//! XChaCha20-Poly1305, and secret-box messages that carry the time of their
//! sealing and are opened only while that time is close to the present.
pub mod hchacha20;
pub mod xchacha20poly1305;

use crate::endian::{
    be_bytes, be_value, lemma_be_round_trip, lemma_pow256_8, read_u64_be, write_u64_be,
};
use crate::wireguard::types::random_bytes;
use sodiumoxide::crypto::secretbox::{open, seal, Key, Nonce};
use vstd::prelude::*;
use vstd::slice::slice_subrange;

verus! {

/// Milliseconds by which the time in a message may differ from the present.
pub const DEFAULT_MAX_DIFF: u64 = 1000;

/// Bytes that a sealed message is longer than the plaintext: timestamp, tag, nonce.
pub const TIMED_OVERHEAD: usize = 40;

/// The secret-box ciphertext, tag included, of `m` under a 24-byte nonce.
pub uninterp spec fn secretbox_seal(key: Seq<u8>, nonce: Seq<u8>, m: Seq<u8>) -> Seq<u8>;

/// What a secret-box ciphertext opens to, where its tag is genuine.
pub uninterp spec fn secretbox_open(key: Seq<u8>, nonce: Seq<u8>, c: Seq<u8>) -> Option<Seq<u8>>;

/// Trusted: `sodiumoxide::crypto::secretbox::seal`. The ciphertext is 16
/// bytes longer than the message, depends on the arguments alone, and opens
/// to the message again.
#[verifier::external_body]
fn box_seal(m: &[u8], nonce: &[u8; 24], key: &[u8; 32]) -> (c: Vec<u8>)
    ensures
        c@ == secretbox_seal(key@, nonce@, m@),
        c@.len() == m@.len() + 16,
        secretbox_open(key@, nonce@, c@) == Some(m@),
{
    seal(m, &Nonce(*nonce), &Key(*key))
}

/// Trusted: `sodiumoxide::crypto::secretbox::open`. It fails on a ciphertext
/// shorter than a tag or with a tag that is not genuine, and otherwise gives
/// the message, 16 bytes shorter.
#[verifier::external_body]
fn box_open(c: &[u8], nonce: &[u8; 24], key: &[u8; 32]) -> (r: Result<Vec<u8>, ()>)
    ensures
        r.is_ok() == secretbox_open(key@, nonce@, c@).is_some(),
        r matches Ok(m) ==> secretbox_open(key@, nonce@, c@) == Some(m@) && m@.len() + 16 == c@.len(),
        c@.len() < 16 ==> r.is_err(),
{
    open(c, &Nonce(*nonce), &Key(*key))
}

/// The nonce with the 16 bytes `tail` after eight zero bytes.
pub open spec fn spec_nonce(tail: Seq<u8>) -> Seq<u8> {
    Seq::new(8, |i: int| 0u8) + tail
}

/// The eight bytes that spell `t` in network order.
pub open spec fn spec_time_bytes(t: u64) -> Seq<u8> {
    be_bytes(t as nat, 8)
}

/// The distance between two times.
pub open spec fn spec_diff(a: u64, b: u64) -> u64 {
    if a > b {
        (a - b) as u64
    } else {
        (b - a) as u64
    }
}

/// A key for timed messages and the tolerance for their age.
pub struct Crypto {
    key: [u8; 32],
    max_diff: u64,
}

fn nonce_of(tail: &[u8]) -> (n: [u8; 24])
    requires
        tail@.len() == 16,
    ensures
        n@ == spec_nonce(tail@),
{
    let mut n = [0u8; 24];
    let mut i: usize = 0;
    while i < 16
        invariant
            i <= 16,
            tail@.len() == 16,
            forall|j: int| 0 <= j < 8 ==> n@[j] == 0,
            forall|j: int| 8 <= j < 8 + i ==> #[trigger] n@[j] == tail@[j - 8],
        decreases 16 - i,
    {
        n[8 + i] = tail[i];
        i = i + 1;
    }
    assert(n@ =~= spec_nonce(tail@));
    n
}

impl Crypto {
    /// The key.
    pub closed spec fn key(&self) -> Seq<u8> {
        self.key@
    }

    /// The tolerance, in milliseconds.
    pub closed spec fn max_diff(&self) -> u64 {
        self.max_diff
    }

    /// A sealer and opener of timed messages.
    pub fn new(k: [u8; 32], max_diff: u64) -> (r: Crypto)
        ensures
            r.key() == k@,
            r.max_diff() == max_diff,
    {
        Crypto { key: k, max_diff: max_diff }
    }

    /// `sealed` opens to `msg` at every time that differs from `t` by no
    /// more than the tolerance, and is refused at every other time.
    pub open spec fn opens_while_close(&self, sealed: Seq<u8>, msg: Seq<u8>, t: u64) -> bool {
        forall|later: u64| #[trigger]
            self.spec_decrypt(sealed, later) == (if spec_diff(t, later) <= self.max_diff() {
                Some(msg)
            } else {
                None
            })
    }

    /// What sealing `msg` at time `t` under the nonce tail `tail` gives: the
    /// secret box of the message and the time, then the tail.
    pub open spec fn spec_encrypt(&self, msg: Seq<u8>, tail: Seq<u8>, t: u64) -> Seq<u8> {
        secretbox_seal(self.key(), spec_nonce(tail), msg + spec_time_bytes(t)) + tail
    }

    /// Seal `msg` at time `t`, in milliseconds, under a given nonce tail.
    pub fn encrypt_with(&self, msg: &[u8], tail: &[u8; 16], t: u64) -> (r: Vec<u8>)
        ensures
            r@ == self.spec_encrypt(msg@, tail@, t),
            r@.len() == msg@.len() + TIMED_OVERHEAD,
            self.opens_while_close(r@, msg@, t),
    {
        let nonce = nonce_of(tail.as_slice());
        let mut tt = [0u8; 8];
        write_u64_be(&mut tt, t);
        let mut m1: Vec<u8> = Vec::new();
        m1.extend_from_slice(msg);
        // Does this need a reallocation?
        m1.extend_from_slice(tt.as_slice());
        assert(m1@ =~= msg@ + spec_time_bytes(t));
        let mut e = box_seal(m1.as_slice(), &nonce, &self.key);
        let ghost sealed = e@;
        e.extend_from_slice(tail.as_slice());
        proof {
            let n = e@.len() as int;
            assert(e@.subrange(0, n - 16) =~= sealed);
            assert(e@.subrange(n - 16, n) =~= tail@);
            let m = msg@ + spec_time_bytes(t);
            assert(m.subrange(m.len() - 8, m.len() as int) =~= spec_time_bytes(t));
            assert(m.subrange(0, m.len() - 8) =~= msg@);
            lemma_pow256_8();
            lemma_be_round_trip(t as nat, 8);
        }
        e
    }

    /// Seal `msg` at time `now`, in milliseconds, under a random nonce tail.
    pub fn encrypt(&self, msg: &[u8], now: u64) -> (r: Vec<u8>)
        ensures
            r@.len() == msg@.len() + TIMED_OVERHEAD,
            self.opens_while_close(r@, msg@, now),
            exists|tail: Seq<u8>| tail.len() == 16 && r@ == self.spec_encrypt(msg@, tail, now),
    {
        let tail = random_bytes::<16>();
        self.encrypt_with(msg, &tail, now)
    }

    /// What opening `msg` at time `now` gives.
    pub open spec fn spec_decrypt(&self, msg: Seq<u8>, now: u64) -> Option<Seq<u8>> {
        if msg.len() < TIMED_OVERHEAD {
            None
        } else {
            let n = msg.len() as int;
            match secretbox_open(self.key(), spec_nonce(msg.subrange(n - 16, n)), msg.subrange(0, n - 16)) {
                None => None,
                Some(m) => if m.len() >= 8 && spec_diff(
                    be_value(m.subrange(m.len() - 8, m.len() as int)) as u64,
                    now,
                ) <= self.max_diff() {
                    Some(m.subrange(0, m.len() - 8))
                } else {
                    None
                },
            }
        }
    }

    /// Open a message at time `now`, in milliseconds.
    ///
    /// It must be at least 40 bytes long: 8 of timestamp, 16 of tag, 16 of
    /// nonce. It must authenticate, and the time in it must not differ from
    /// `now` by more than the tolerance.
    pub fn decrypt(&self, msg: &[u8], now: u64) -> (r: Option<Vec<u8>>)
        ensures
            r.is_some() == self.spec_decrypt(msg@, now).is_some(),
            r matches Some(v) ==> self.spec_decrypt(msg@, now) == Some(v@),
    {
        // 8 bytes timestamp, 16 bytes auth tag, 16 bytes random nonce.
        if msg.len() < TIMED_OVERHEAD {
            return None;
        }
        let split: usize = msg.len() - 16;
        let nonce = nonce_of(slice_subrange(msg, split, msg.len()));
        match box_open(slice_subrange(msg, 0, split), &nonce, &self.key) {
            Err(_) => None,
            Ok(m) => {
                let mut m = m;
                let len: usize = m.len() - 8;
                let t = read_u64_be(slice_subrange(m.as_slice(), len, m.len()));
                assert(m@.subrange(len as int, m@.len() as int).subrange(0, 8) =~= m@.subrange(
                    len as int,
                    m@.len() as int,
                ));
                let diff = if t > now {
                    t - now
                } else {
                    now - t
                };
                if diff <= self.max_diff {
                    let ghost whole = m@;
                    m.truncate(len);
                    assert(m@ =~= whole.subrange(0, len as int));
                    Some(m)
                } else {
                    None
                }
            },
        }
    }
}

} // verus!

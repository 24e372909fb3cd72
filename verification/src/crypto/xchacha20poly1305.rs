//! XChaCha20-Poly1305: ChaCha20-Poly1305 under a key derived from the first
//! 16 bytes of a 24-byte nonce.
use crate::crypto::hchacha20::{hchacha20, spec_hchacha20};
use sodiumoxide::crypto::aead::chacha20poly1305_ietf::{open, seal, Key, Nonce};
use vstd::prelude::*;
use vstd::slice::slice_subrange;

verus! {

/// The IETF ChaCha20-Poly1305 ciphertext, tag included, of `plaintext` under
/// a 32-byte key and a 12-byte nonce.
pub uninterp spec fn ietf_seal(key: Seq<u8>, nonce: Seq<u8>, ad: Seq<u8>, plaintext: Seq<u8>) -> Seq<u8>;

/// The plaintext that an IETF ChaCha20-Poly1305 ciphertext opens to, where
/// its tag is genuine.
pub uninterp spec fn ietf_open(key: Seq<u8>, nonce: Seq<u8>, ad: Seq<u8>, ciphertext: Seq<u8>) -> Option<Seq<u8>>;

/// Trusted: `sodiumoxide::crypto::aead::chacha20poly1305_ietf::seal`. The
/// ciphertext is 16 bytes longer than the message, depends on the arguments
/// alone, and opens to the message again.
#[verifier::external_body]
fn ietf_encrypt(key: &[u8; 32], nonce: &[u8; 12], ad: &[u8], p: &[u8]) -> (c: Vec<u8>)
    ensures
        c@ == ietf_seal(key@, nonce@, ad@, p@),
        c@.len() == p@.len() + 16,
        ietf_open(key@, nonce@, ad@, c@) == Some(p@),
{
    seal(p, Some(ad), &Nonce(*nonce), &Key(*key))
}

/// Trusted: `sodiumoxide::crypto::aead::chacha20poly1305_ietf::open`. It
/// fails on a ciphertext shorter than a tag or with a tag that is not
/// genuine, and otherwise gives the message, 16 bytes shorter.
#[verifier::external_body]
fn ietf_decrypt(key: &[u8; 32], nonce: &[u8; 12], ad: &[u8], c: &[u8]) -> (r: Result<Vec<u8>, ()>)
    ensures
        r.is_ok() == ietf_open(key@, nonce@, ad@, c@).is_some(),
        r matches Ok(p) ==> ietf_open(key@, nonce@, ad@, c@) == Some(p@) && p@.len() + 16 == c@.len(),
        c@.len() < 16 ==> r.is_err(),
{
    open(c, Some(ad), &Nonce(*nonce), &Key(*key))
}

/// The 12-byte nonce of the inner cipher: four zero bytes, then the last
/// eight bytes of the 24-byte nonce.
pub open spec fn spec_inner_nonce(nonce: Seq<u8>) -> Seq<u8> {
    seq![0u8, 0u8, 0u8, 0u8] + nonce.subrange(16, 24)
}

/// What `encrypt` returns.
pub open spec fn spec_encrypt(key: Seq<u8>, nonce: Seq<u8>, ad: Seq<u8>, p: Seq<u8>) -> Seq<u8> {
    ietf_seal(spec_hchacha20(nonce.subrange(0, 16), key), spec_inner_nonce(nonce), ad, p)
}

/// What `decrypt` returns.
pub open spec fn spec_decrypt(key: Seq<u8>, nonce: Seq<u8>, ad: Seq<u8>, c: Seq<u8>) -> Option<Seq<u8>> {
    ietf_open(spec_hchacha20(nonce.subrange(0, 16), key), spec_inner_nonce(nonce), ad, c)
}

fn inner_nonce(nonce: &[u8]) -> (n: [u8; 12])
    requires
        nonce@.len() == 24,
    ensures
        n@ == spec_inner_nonce(nonce@),
{
    let mut n: [u8; 12] = [0u8; 12];
    let mut i: usize = 0;
    while i < 8
        invariant
            i <= 8,
            nonce@.len() == 24,
            n@[0] == 0 && n@[1] == 0 && n@[2] == 0 && n@[3] == 0,
            forall|j: int| 4 <= j < 4 + i ==> #[trigger] n@[j] == nonce@[12 + j],
        decreases 8 - i,
    {
        n[4 + i] = nonce[16 + i];
        i = i + 1;
    }
    assert(n@ =~= spec_inner_nonce(nonce@));
    n
}

/// Encrypt `p` with associated data `ad` under a 32-byte key and a 24-byte nonce.
pub fn encrypt(key: &[u8], nonce: &[u8], ad: &[u8], p: &[u8]) -> (c: Vec<u8>)
    requires
        key@.len() == 32,
        nonce@.len() == 24,
    ensures
        c@ == spec_encrypt(key@, nonce@, ad@, p@),
        c@.len() == p@.len() + 16,
        spec_decrypt(key@, nonce@, ad@, c@) == Some(p@),
{
    let derived_key = hchacha20(slice_subrange(nonce, 0, 16), key);
    let nonce1 = inner_nonce(nonce);
    ietf_encrypt(&derived_key, &nonce1, ad, p)
}

/// Decrypt `c` with associated data `ad` under a 32-byte key and a 24-byte
/// nonce; an error where it does not authenticate.
pub fn decrypt(key: &[u8], nonce: &[u8], ad: &[u8], c: &[u8]) -> (r: Result<Vec<u8>, ()>)
    requires
        key@.len() == 32,
        nonce@.len() == 24,
    ensures
        r.is_ok() == spec_decrypt(key@, nonce@, ad@, c@).is_some(),
        r matches Ok(p) ==> spec_decrypt(key@, nonce@, ad@, c@) == Some(p@) && p@.len() + 16 == c@.len(),
{
    let derived_key = hchacha20(slice_subrange(nonce, 0, 16), key);
    let nonce1 = inner_nonce(nonce);
    ietf_decrypt(&derived_key, &nonce1, ad, c)
}

} // verus!

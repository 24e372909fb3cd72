//! Cookie reply messages generation and parsing, and the MAC checks that go
//! with them.
use crate::crypto::xchacha20poly1305::{decrypt, encrypt, spec_decrypt, spec_encrypt};
use crate::wireguard::handshake::{bytes_eq, spec_header, spec_mac1_valid, verify_mac1, MAC_LEN, TYPE_COOKIE_REPLY};
use crate::wireguard::noise::{blake2s_digest, blake2s_hash};
use crate::wireguard::types::{elapsed, random_bytes, seconds, spec_elapsed, spec_seconds, Id};
use vstd::prelude::*;
use vstd::slice::slice_subrange;

verus! {

/// Length of a cookie reply.
pub const COOKIE_REPLY_LEN: usize = 64;

/// Seconds for which a received cookie is used.
pub const COOKIE_LIFETIME: u64 = 120;

/// A cookie received from a peer, with the time of its receipt.
#[derive(Debug, Copy, Clone)]
pub struct Cookie {
    pub value: [u8; 16],
    pub received: u64,
}

impl Cookie {
    /// The cookie has not expired at `now`.
    pub open spec fn spec_fresh(&self, now: u64) -> bool {
        spec_elapsed(now, self.received) < spec_seconds(COOKIE_LIFETIME)
    }

    /// Whether the cookie has not expired at `now`.
    pub fn fresh(&self, now: u64) -> (r: bool)
        ensures
            r == self.spec_fresh(now),
    {
        elapsed(now, self.received) < seconds(COOKIE_LIFETIME)
    }
}

/// The ASCII text `cookie--`.
pub open spec fn spec_label_cookie() -> Seq<u8> {
    seq![99u8, 111u8, 111u8, 107u8, 105u8, 101u8, 45u8, 45u8]
}

/// The key under which the owner of `pubkey` encrypts cookies.
pub open spec fn spec_cookie_key(pubkey: Seq<u8>) -> Seq<u8> {
    blake2s_digest(32, Seq::<u8>::empty(), spec_label_cookie() + pubkey)
}

/// MAC2 of `body` under `cookie`.
pub open spec fn spec_mac2(cookie: Seq<u8>, body: Seq<u8>) -> Seq<u8> {
    blake2s_digest(16, cookie, body)
}

fn cookie_key(pubkey: &[u8; 32]) -> (k: Vec<u8>)
    ensures
        k@ == spec_cookie_key(pubkey@),
        k@.len() == 32,
{
    let label: [u8; 8] = [99, 111, 111, 107, 105, 101, 45, 45];
    let mut input: Vec<u8> = Vec::new();
    input.extend_from_slice(label.as_slice());
    input.extend_from_slice(pubkey.as_slice());
    let none: [u8; 0] = [];
    assert(none@ =~= Seq::<u8>::empty());
    assert(input@ =~= spec_label_cookie() + pubkey@);
    blake2s_hash(32, none.as_slice(), input.as_slice())
}

/// What `cookie_sign` leaves in a message: with a cookie that has not
/// expired, the last 16 bytes become MAC2 of all before them under it.
pub open spec fn spec_cookie_sign(m: Seq<u8>, cookie: Option<Cookie>, now: u64) -> Seq<u8> {
    match cookie {
        Some(c) => if c.spec_fresh(now) && m.len() >= MAC_LEN {
            m.subrange(0, m.len() - MAC_LEN) + spec_mac2(c.value@, m.subrange(0, m.len() - MAC_LEN))
        } else {
            m
        },
        None => m,
    }
}

/// Fill in MAC2 of a handshake message where a cookie is held and has not
/// expired; leave the message alone otherwise.
pub fn cookie_sign(m: &mut Vec<u8>, cookie: Option<&Cookie>, now: u64)
    ensures
        final(m)@ == spec_cookie_sign(
            old(m)@,
            match cookie {
                Some(c) => Some(*c),
                None => None,
            },
            now,
        ),
        final(m)@.len() == old(m)@.len(),
{
    match cookie {
        Some(c) => {
            if c.fresh(now) && m.len() >= MAC_LEN {
                let n: usize = m.len() - MAC_LEN;
                m.truncate(n);
                let mac = blake2s_hash(MAC_LEN, c.value.as_slice(), m.as_slice());
                m.extend_from_slice(mac.as_slice());
            }
        },
        None => {},
    }
}

/// The last 16 bytes of `msg` are MAC2 of all before them under `cookie`.
pub open spec fn spec_mac2_valid(cookie: Seq<u8>, msg: Seq<u8>) -> bool {
    msg.len() >= MAC_LEN && msg.subrange(msg.len() - MAC_LEN, msg.len() as int) == spec_mac2(
        cookie,
        msg.subrange(0, msg.len() - MAC_LEN),
    )
}

/// Whether the last 16 bytes of a message are its MAC2 under `cookie`.
pub fn verify_mac2(cookie: &[u8; 16], msg: &[u8]) -> (ok: bool)
    ensures
        ok == spec_mac2_valid(cookie@, msg@),
{
    if msg.len() < MAC_LEN {
        return false;
    }
    let n: usize = msg.len() - MAC_LEN;
    let mac = blake2s_hash(MAC_LEN, cookie.as_slice(), slice_subrange(msg, 0, n));
    bytes_eq(mac.as_slice(), slice_subrange(msg, n, msg.len()))
}

/// What to do with a handshake message after looking at its MACs.
#[derive(Debug, Copy, Clone, PartialEq, Eq, Structural)]
pub enum MacVerdict {
    /// MAC1 is wrong: drop the message and answer nothing.
    Reject,
    /// Go on with the handshake.
    Accept,
    /// Under load, and MAC2 does not prove a cookie: answer with a cookie reply.
    SendCookie,
}

/// What `check_macs` decides.
pub open spec fn spec_check_macs(
    pubkey: Seq<u8>,
    msg: Seq<u8>,
    body_len: int,
    under_load: bool,
    cookie: Seq<u8>,
) -> MacVerdict {
    if !spec_mac1_valid(pubkey, msg, body_len) {
        MacVerdict::Reject
    } else if !under_load || spec_mac2_valid(cookie, msg) {
        MacVerdict::Accept
    } else {
        MacVerdict::SendCookie
    }
}

/// Judge a handshake message by its MACs. MAC1 is always checked, and a
/// message that fails it is never answered; MAC2 is looked at only under
/// load, against the cookie that this sender would hold.
pub fn check_macs(pubkey: &[u8; 32], msg: &[u8], body_len: usize, under_load: bool, cookie: &[u8; 16]) -> (v:
    MacVerdict)
    requires
        body_len + MAC_LEN <= usize::MAX,
    ensures
        v == spec_check_macs(pubkey@, msg@, body_len as int, under_load, cookie@),
{
    if !verify_mac1(pubkey, msg, body_len) {
        MacVerdict::Reject
    } else if !under_load {
        MacVerdict::Accept
    } else if verify_mac2(cookie, msg) {
        MacVerdict::Accept
    } else {
        MacVerdict::SendCookie
    }
}

/// The cookie reply to `receiver` that carries `cookie` under `nonce`.
pub open spec fn spec_cookie_reply(
    pubkey: Seq<u8>,
    receiver: Seq<u8>,
    mac1: Seq<u8>,
    cookie: Seq<u8>,
    nonce: Seq<u8>,
) -> Seq<u8> {
    spec_header(TYPE_COOKIE_REPLY, receiver, Seq::<u8>::empty()) + nonce + spec_encrypt(
        spec_cookie_key(pubkey),
        nonce,
        mac1,
        cookie,
    )
}

/// Build a cookie reply under a given nonce: type, the receiver's index, the
/// nonce, and the cookie encrypted under the key of our public key with the
/// triggering message's MAC1 as associated data.
pub fn cookie_reply_with_nonce(pubkey: &[u8; 32], receiver: Id, mac1: &[u8; 16], cookie: &[u8; 16], nonce: &[u8; 24]) -> (out: Vec<u8>)
    ensures
        out@ == spec_cookie_reply(pubkey@, receiver@, mac1@, cookie@, nonce@),
        out@.len() == COOKIE_REPLY_LEN,
{
    let key = cookie_key(pubkey);
    let sealed = encrypt(key.as_slice(), nonce.as_slice(), mac1.as_slice(), cookie.as_slice());
    let mut out: Vec<u8> = Vec::new();
    out.push(TYPE_COOKIE_REPLY);
    out.push(0);
    out.push(0);
    out.push(0);
    assert(out@ =~= seq![TYPE_COOKIE_REPLY, 0u8, 0u8, 0u8]);
    out.extend_from_slice(receiver.as_slice());
    assert(out@ =~= spec_header(TYPE_COOKIE_REPLY, receiver@, Seq::<u8>::empty()));
    out.extend_from_slice(nonce.as_slice());
    out.extend_from_slice(sealed.as_slice());
    out
}

/// Build a cookie reply under a fresh random nonce.
pub fn cookie_reply(pubkey: &[u8; 32], receiver: Id, mac1: &[u8; 16], cookie: &[u8; 16]) -> (out: Vec<u8>)
    ensures
        out@.len() == COOKIE_REPLY_LEN,
        exists|nonce: Seq<u8>|
            nonce.len() == 24 && out@ == spec_cookie_reply(pubkey@, receiver@, mac1@, cookie@, nonce),
{
    let nonce = random_bytes::<24>();
    cookie_reply_with_nonce(pubkey, receiver, mac1, cookie, &nonce)
}

/// The cookie that a reply carries, where it authenticates.
pub open spec fn spec_process_cookie_reply(
    peer_pubkey: Seq<u8>,
    mac1: Seq<u8>,
    p: Seq<u8>,
) -> Option<Seq<u8>> {
    if p.len() == COOKIE_REPLY_LEN {
        spec_decrypt(spec_cookie_key(peer_pubkey), p.subrange(8, 32), mac1, p.subrange(32, 64))
    } else {
        None
    }
}

/// Open a cookie reply from the peer with public key `peer_pubkey`, sent in
/// answer to our message whose MAC1 was `mac1`. The reply must be 64 bytes
/// long and authenticate; the cookie then counts as received at `now`.
pub fn process_cookie_reply(peer_pubkey: &[u8; 32], mac1: &[u8; 16], p: &[u8], now: u64) -> (r: Result<Cookie, ()>)
    ensures
        r.is_ok() == spec_process_cookie_reply(peer_pubkey@, mac1@, p@).is_some(),
        r matches Ok(c) ==> spec_process_cookie_reply(peer_pubkey@, mac1@, p@) == Some(c.value@)
            && c.received == now,
{
    if p.len() != COOKIE_REPLY_LEN {
        return Err(());
    }
    let key = cookie_key(peer_pubkey);
    match decrypt(key.as_slice(), slice_subrange(p, 8, 32), mac1.as_slice(), slice_subrange(p, 32, 64)) {
        Ok(c) => {
            let value: [u8; 16] = [
                c[0], c[1], c[2], c[3], c[4], c[5], c[6], c[7], c[8], c[9], c[10], c[11], c[12], c[13],
                c[14], c[15],
            ];
            assert(value@ =~= c@);
            Ok(Cookie { value, received: now })
        },
        Err(_) => Err(()),
    }
}

} // verus!

//! The Noise primitives that the protocol is built from: the AEAD, the keyed
//! hash, and the IK handshake state.
use blake2_rfc::blake2s::blake2s;
use noise_protocol::patterns::{noise_ik, noise_ik_psk2};
use noise_protocol::{Cipher, ErrorKind, HandshakeState, U8Array};
use noise_rust_crypto::Blake2s;
use noise_sodiumoxide::{ChaCha20Poly1305, Sensitive, X25519};
use vstd::prelude::*;

verus! {

/// Length of the authentication tag that the AEAD appends.
pub const TAG_LEN: usize = 16;

/// The ChaCha20-Poly1305 ciphertext, tag included, of `plaintext`.
pub uninterp spec fn chacha20poly1305_seal(
    key: Seq<u8>,
    nonce: u64,
    ad: Seq<u8>,
    plaintext: Seq<u8>,
) -> Seq<u8>;

/// The plaintext that a ChaCha20-Poly1305 ciphertext opens to, where its tag
/// is genuine.
pub uninterp spec fn chacha20poly1305_open(
    key: Seq<u8>,
    nonce: u64,
    ad: Seq<u8>,
    ciphertext: Seq<u8>,
) -> Option<Seq<u8>>;

/// Trusted: `<noise_sodiumoxide::ChaCha20Poly1305 as noise_protocol::Cipher>::encrypt`.
/// It fills `out`, which must be 16 bytes longer than the plaintext, with the
/// ciphertext and tag; these depend on the arguments alone, and decrypting
/// them with the same key, nonce and associated data gives the plaintext back.
#[verifier::external_body]
pub(crate) fn aead_encrypt(key: &[u8; 32], nonce: u64, ad: &[u8], plaintext: &[u8], out: &mut Vec<u8>)
    requires
        old(out)@.len() == plaintext@.len() + TAG_LEN,
    ensures
        final(out)@ == chacha20poly1305_seal(key@, nonce, ad@, plaintext@),
        final(out)@.len() == plaintext@.len() + TAG_LEN,
        chacha20poly1305_open(key@, nonce, ad@, final(out)@) == Some(plaintext@),
{
    let k = Sensitive::<[u8; 32]>::from_slice(key);
    <ChaCha20Poly1305 as Cipher>::encrypt(&k, nonce, ad, plaintext, out.as_mut_slice());
}

/// Trusted: `<noise_sodiumoxide::ChaCha20Poly1305 as noise_protocol::Cipher>::decrypt`.
/// It succeeds exactly when the tag is genuine and then fills `out`, which
/// must be 16 bytes shorter than the ciphertext, with the plaintext.
#[verifier::external_body]
pub(crate) fn aead_decrypt(key: &[u8; 32], nonce: u64, ad: &[u8], ciphertext: &[u8], out: &mut Vec<u8>) -> (ok: bool)
    requires
        old(out)@.len() + TAG_LEN == ciphertext@.len(),
    ensures
        final(out)@.len() == old(out)@.len(),
        ok == chacha20poly1305_open(key@, nonce, ad@, ciphertext@).is_some(),
        ok ==> chacha20poly1305_open(key@, nonce, ad@, ciphertext@) == Some(final(out)@),
{
    let k = Sensitive::<[u8; 32]>::from_slice(key);
    <ChaCha20Poly1305 as Cipher>::decrypt(&k, nonce, ad, ciphertext, out.as_mut_slice()).is_ok()
}

/// The BLAKE2s digest of `data`, `len` bytes long, under `key` (unkeyed where
/// `key` is empty).
pub uninterp spec fn blake2s_digest(len: usize, key: Seq<u8>, data: Seq<u8>) -> Seq<u8>;

/// Trusted: `blake2_rfc::blake2s::blake2s`. It hashes `data` under `key` to
/// `len` bytes, a function of the arguments alone, and panics unless `len` is
/// between 1 and 32 and the key no longer than 32 bytes.
#[verifier::external_body]
pub(crate) fn blake2s_hash(len: usize, key: &[u8], data: &[u8]) -> (h: Vec<u8>)
    requires
        1 <= len <= 32,
        key@.len() <= 32,
    ensures
        h@ == blake2s_digest(len, key@, data@),
        h@.len() == len,
{
    blake2s(len, key, data).as_bytes().to_vec()
}

/// Why a handshake message could not be written or read.
#[derive(Debug, Copy, Clone, PartialEq, Eq, Structural)]
pub enum NoiseError {
    /// A Diffie-Hellman result was all zero.
    DH,
    /// The pattern asked for a pre-shared key that was not supplied.
    NeedPSK,
    /// A field did not authenticate.
    Decryption,
    /// The message is shorter than the pattern's fixed part.
    TooShort,
    /// It is not this side's turn, or the handshake is over.
    OutOfTurn,
    /// The state has refused a message before and cannot go on.
    Failed,
}

/// Trusted: the type `noise_protocol::Error`, carried from the Noise state
/// to `noise_error_kind` without being looked into.
#[verifier::external_type_specification]
#[verifier::external_body]
pub struct ExNoiseProtocolError(noise_protocol::Error);

/// Trusted: `noise_protocol::Error::kind`, with each kind mapped to the
/// variant of the same name; the outside error has no other kinds, so the
/// variants of this crate's own, `OutOfTurn` and `Failed`, never come out.
#[verifier::external_body]
pub(crate) fn noise_error_kind(e: &noise_protocol::Error) -> (k: NoiseError)
    ensures
        k != NoiseError::OutOfTurn,
        k != NoiseError::Failed,
{
    match e.kind() {
        ErrorKind::DH => NoiseError::DH,
        ErrorKind::NeedPSK => NoiseError::NeedPSK,
        ErrorKind::Decryption => NoiseError::Decryption,
        ErrorKind::TooShort => NoiseError::TooShort,
    }
}

/// The symmetric state of one IK handshake, as `noise_protocol` keeps it.
/// Nothing of its inside is visible to the proofs.
#[verifier::external_body]
pub struct NoiseState {
    inner: HandshakeState<X25519, ChaCha20Poly1305, Blake2s>,
}

/// Bytes that handshake message number `index` of IK is longer than its
/// payload: an ephemeral key, the encrypted static key in the first message,
/// and the payload's tag.
pub open spec fn spec_overhead(index: u8) -> int {
    if index == 0 {
        96
    } else {
        48
    }
}

/// Bytes that handshake message number `index` of IK is longer than its payload.
pub fn overhead(index: u8) -> (r: usize)
    ensures
        r == spec_overhead(index),
{
    if index == 0 {
        96
    } else {
        48
    }
}

/// What a Noise state was made from and what has been put into it since.
pub struct Fed {
    /// The prologue.
    pub prologue: Seq<u8>,
    /// This side's static secret key.
    pub s: Seq<u8>,
    /// The other side's static public key, where it was known beforehand.
    pub rs: Option<Seq<u8>>,
    /// The pre-shared key, where there is one.
    pub psk: Option<Seq<u8>>,
    /// The payloads that were handed over to be written, in order.
    pub written: Seq<Seq<u8>>,
    /// The messages that were handed over to be read, in order.
    pub read: Seq<Seq<u8>>,
}

/// A key that may be there, as bytes.
pub open spec fn spec_key_bytes(k: Option<[u8; 32]>) -> Option<Seq<u8>> {
    match k {
        Some(x) => Some(x@),
        None => None,
    }
}

/// What a Noise state that has written and read nothing was made from.
pub open spec fn spec_fresh(prologue: Seq<u8>, s: Seq<u8>, rs: Option<Seq<u8>>, psk: Option<Seq<u8>>) -> Fed {
    Fed { prologue, s, rs, psk, written: Seq::empty(), read: Seq::empty() }
}

/// The payload that a responder, made from `prologue`, the static key `s`
/// and the pre-shared key `psk`, reads out of `data` as the first message of
/// a handshake; `None` where the message does not authenticate. The
/// responder brings nothing of its own to this but its keys.
pub uninterp spec fn ik_first_payload(
    prologue: Seq<u8>,
    s: Seq<u8>,
    psk: Option<Seq<u8>>,
    data: Seq<u8>,
) -> Option<Seq<u8>>;

/// The initiator's static public key that such a responder holds after it
/// has read `data` as the first message and accepted it.
pub uninterp spec fn ik_first_static(
    prologue: Seq<u8>,
    s: Seq<u8>,
    psk: Option<Seq<u8>>,
    data: Seq<u8>,
) -> Option<Seq<u8>>;

/// The transport keys as one side uses them: the key to send with, then the
/// key to receive with. The initiator sends with the first key of the Noise
/// pair and receives with the second; the responder the other way round.
pub open spec fn spec_keys_by_role(is_initiator: bool, pair: (Seq<u8>, Seq<u8>)) -> (Seq<u8>, Seq<u8>) {
    if is_initiator {
        (pair.0, pair.1)
    } else {
        (pair.1, pair.0)
    }
}

/// The transport keys as one side uses them: the key to send with, then the
/// key to receive with.
pub fn keys_by_role(is_initiator: bool, pair: ([u8; 32], [u8; 32])) -> (r: ([u8; 32], [u8; 32]))
    ensures
        (r.0@, r.1@) == spec_keys_by_role(is_initiator, (pair.0@, pair.1@)),
{
    if is_initiator {
        (pair.0, pair.1)
    } else {
        (pair.1, pair.0)
    }
}

/// A handshake in progress: the Noise state together with what the protocol
/// logic needs to know of it.
///
/// `messages` counts the handshake messages that the Noise state has taken
/// up, `is_initiator` tells the role, `psks` counts the pre-shared keys that
/// were queued, and `failed` says that the state has refused a message; they
/// mirror what the Noise state holds, which is so because only the functions
/// of this file build or advance one. `pair` holds the two transport keys,
/// in the order of the Noise state, once the second message has gone
/// through. `fed` records, for the proofs alone, everything that was handed
/// to the Noise state.
pub struct HS {
    state: NoiseState,
    is_initiator: bool,
    messages: u8,
    psks: u8,
    failed: bool,
    pair: Option<([u8; 32], [u8; 32])>,
    fed: Ghost<Fed>,
}

impl HS {
    /// The role of this side.
    pub closed spec fn spec_is_initiator(&self) -> bool {
        self.is_initiator
    }

    /// How many handshake messages the Noise state has taken up.
    pub closed spec fn spec_messages(&self) -> u8 {
        self.messages
    }

    /// The Noise state has refused a message and cannot go on.
    pub closed spec fn spec_failed(&self) -> bool {
        self.failed
    }

    /// What the Noise state was made from and what was put into it since.
    pub closed spec fn fed(&self) -> Fed {
        self.fed@
    }

    /// Both messages have gone through and the transport keys are there.
    pub closed spec fn established(&self) -> bool {
        self.pair.is_some()
    }

    /// The two transport keys in the order of the Noise state, once the
    /// handshake is established.
    pub closed spec fn spec_pair(&self) -> (Seq<u8>, Seq<u8>) {
        match self.pair {
            Some(k) => (k.0@, k.1@),
            None => (Seq::empty(), Seq::empty()),
        }
    }

    /// The key that this side sends with, once the handshake is established.
    pub open spec fn spec_send_key(&self) -> Seq<u8> {
        spec_keys_by_role(self.spec_is_initiator(), self.spec_pair()).0
    }

    /// The key that this side receives with, once the handshake is established.
    pub open spec fn spec_recv_key(&self) -> Seq<u8> {
        spec_keys_by_role(self.spec_is_initiator(), self.spec_pair()).1
    }

    /// Nothing that the proofs can see of the state differs.
    pub open spec fn same_as(&self, other: &HS) -> bool {
        &&& self.spec_is_initiator() == other.spec_is_initiator()
        &&& self.spec_messages() == other.spec_messages()
        &&& self.spec_failed() == other.spec_failed()
        &&& self.fed() == other.fed()
        &&& self.established() == other.established()
        &&& self.spec_pair() == other.spec_pair()
    }

    /// A responder that has read and written nothing.
    pub open spec fn fresh_responder(&self) -> bool {
        &&& !self.spec_is_initiator()
        &&& !self.spec_failed()
        &&& self.spec_messages() == 0
        &&& self.fed().read.len() == 0
        &&& self.fed().written.len() == 0
    }

    /// A responder that has read one message and written nothing.
    pub open spec fn responder_after_read(&self) -> bool {
        &&& !self.spec_is_initiator()
        &&& !self.spec_failed()
        &&& self.spec_messages() == 1
        &&& self.fed().read.len() == 1
        &&& self.fed().written.len() == 0
    }

    /// It is this side's turn to write a handshake message.
    pub open spec fn our_turn_to_write(&self) -> bool {
        !self.spec_failed() && self.spec_messages() < 2 && ((self.spec_messages() == 0)
            == self.spec_is_initiator())
    }

    /// It is this side's turn to read a handshake message.
    pub open spec fn our_turn_to_read(&self) -> bool {
        !self.spec_failed() && self.spec_messages() < 2 && ((self.spec_messages() == 1)
            == self.spec_is_initiator())
    }

    /// Whether the handshake is initiated by us.
    #[verifier::when_used_as_spec(spec_is_initiator)]
    pub fn get_is_initiator(&self) -> (r: bool)
        ensures
            r == self.spec_is_initiator(),
    {
        self.is_initiator
    }

    /// How many handshake messages the Noise state has taken up.
    #[verifier::when_used_as_spec(spec_messages)]
    pub fn messages(&self) -> (r: u8)
        ensures
            r == self.spec_messages(),
    {
        self.messages
    }

    /// Whether the Noise state has refused a message and cannot go on.
    pub fn has_failed(&self) -> (r: bool)
        ensures
            r == self.spec_failed(),
    {
        self.failed
    }

    /// Trusted: `noise_protocol::HandshakeState::new` on the pattern
    /// `noise_ik()`. The initiator must know the responder's static key, which
    /// the constructor unwraps. Nothing is promised of the state that comes.
    #[verifier::external_body]
    fn new_ik(is_initiator: bool, prologue: &[u8], s: &[u8; 32], rs: Option<[u8; 32]>) -> (state: NoiseState)
        requires
            is_initiator ==> rs.is_some(),
    {
        let key = U8Array::from_slice(s);
        NoiseState { inner: HandshakeState::new(noise_ik(), is_initiator, prologue, Some(key), None, rs, None) }
    }

    /// Trusted: `noise_protocol::HandshakeState::new` on the pattern
    /// `noise_ik_psk2()`. The initiator must know the responder's static key,
    /// which the constructor unwraps. No pre-shared key is queued yet, and
    /// nothing is promised of the state that comes.
    #[verifier::external_body]
    fn new_ik_psk2(is_initiator: bool, prologue: &[u8], s: &[u8; 32], rs: Option<[u8; 32]>) -> (state: NoiseState)
        requires
            is_initiator ==> rs.is_some(),
    {
        let key = U8Array::from_slice(s);
        NoiseState { inner: HandshakeState::new(noise_ik_psk2(), is_initiator, prologue, Some(key), None, rs, None) }
    }

    /// Trusted: `noise_protocol::HandshakeState::push_psk`. It queues a
    /// pre-shared key and panics where four are queued already. What is kept
    /// beside the state is left to the caller.
    #[verifier::external_body]
    fn push_psk_raw(&mut self, psk: &[u8; 32])
        requires
            old(self).psks < 4,
        ensures
            final(self).is_initiator == old(self).is_initiator,
            final(self).messages == old(self).messages,
            final(self).psks == old(self).psks,
            final(self).failed == old(self).failed,
            final(self).pair == old(self).pair,
            final(self).fed == old(self).fed,
    {
        self.state.inner.push_psk(psk)
    }

    /// Trusted: `noise_protocol::HandshakeState::write_message_vec`. It
    /// panics unless it is this side's turn, and may panic on a state that
    /// has refused a message before, which may lack a key that the pattern
    /// takes for granted; so it is for a state that has failed nothing and
    /// whose turn it is. The message is longer than the payload by the
    /// overhead of its place in the pattern. What is kept beside the state
    /// is left to the caller.
    #[verifier::external_body]
    fn write_raw(&mut self, payload: &[u8]) -> (r: Result<Vec<u8>, noise_protocol::Error>)
        requires
            !old(self).failed,
            old(self).messages < 2,
            (old(self).messages == 0) == old(self).is_initiator,
        ensures
            final(self).is_initiator == old(self).is_initiator,
            final(self).messages == old(self).messages,
            final(self).psks == old(self).psks,
            final(self).failed == old(self).failed,
            final(self).pair == old(self).pair,
            final(self).fed == old(self).fed,
            r matches Ok(v) ==> v@.len() == payload@.len() + spec_overhead(old(self).messages),
    {
        self.state.inner.write_message_vec(payload)
    }

    /// Trusted: `noise_protocol::HandshakeState::read_message_vec`. It panics
    /// unless it is the other side's turn, and is not to be used on a state
    /// that has refused a message before; a message shorter than the
    /// overhead would be refused before the state takes it up, so none is
    /// handed in. The payload is shorter than the message by the overhead.
    #[verifier::external_body]
    fn read_raw(&mut self, data: &[u8]) -> (r: Result<Vec<u8>, noise_protocol::Error>)
        requires
            !old(self).failed,
            old(self).messages < 2,
            (old(self).messages == 1) == old(self).is_initiator,
            data@.len() >= spec_overhead(old(self).messages),
        ensures
            final(self).is_initiator == old(self).is_initiator,
            final(self).messages == old(self).messages,
            final(self).psks == old(self).psks,
            final(self).failed == old(self).failed,
            final(self).pair == old(self).pair,
            final(self).fed == old(self).fed,
            r matches Ok(v) ==> v@.len() + spec_overhead(old(self).messages) == data@.len(),
    {
        self.state.inner.read_message_vec(data)
    }

    /// Trusted: `noise_protocol::HandshakeState::new` on the pattern
    /// `noise_ik()` for a responder with the static key `s`, then
    /// `read_message_vec` of `data` as the first message, then `get_rs`.
    /// The responder brings nothing of its own to this but the prologue and
    /// its key, so whether the message is accepted, the payload that comes
    /// out and the static key that the state then holds depend on these
    /// arguments alone. The message is to be at least as long as the
    /// overhead of the first message; the payload is shorter by it.
    #[verifier::external_body]
    fn read_first_ik(prologue: &[u8], s: &[u8; 32], data: &[u8]) -> (r: (
        NoiseState,
        Result<Vec<u8>, noise_protocol::Error>,
        Option<[u8; 32]>,
    ))
        requires
            data@.len() >= spec_overhead(0),
        ensures
            r.1.is_ok() == ik_first_payload(prologue@, s@, None::<Seq<u8>>, data@).is_some(),
            r.1 matches Ok(v) ==> ik_first_payload(prologue@, s@, None::<Seq<u8>>, data@) == Some(v@)
                && v@.len() + spec_overhead(0) == data@.len(),
            r.1.is_ok() ==> spec_key_bytes(r.2) == ik_first_static(
                prologue@,
                s@,
                None::<Seq<u8>>,
                data@,
            ),
    {
        let key = U8Array::from_slice(s);
        let mut inner = HandshakeState::new(noise_ik(), false, prologue, Some(key), None, None, None);
        let payload = inner.read_message_vec(data);
        let rs = inner.get_rs();
        (NoiseState { inner }, payload, rs)
    }

    /// Trusted: `noise_protocol::HandshakeState::new` on the pattern
    /// `noise_ik_psk2()` for a responder with the static key `s`, then
    /// `push_psk` of `psk`, `read_message_vec` of `data` as the first
    /// message, and `get_rs`. As without a pre-shared key, what comes out
    /// depends on these arguments alone.
    #[verifier::external_body]
    fn read_first_ik_psk2(prologue: &[u8], s: &[u8; 32], psk: &[u8; 32], data: &[u8]) -> (r: (
        NoiseState,
        Result<Vec<u8>, noise_protocol::Error>,
        Option<[u8; 32]>,
    ))
        requires
            data@.len() >= spec_overhead(0),
        ensures
            r.1.is_ok() == ik_first_payload(prologue@, s@, Some(psk@), data@).is_some(),
            r.1 matches Ok(v) ==> ik_first_payload(prologue@, s@, Some(psk@), data@) == Some(v@)
                && v@.len() + spec_overhead(0) == data@.len(),
            r.1.is_ok() ==> spec_key_bytes(r.2) == ik_first_static(prologue@, s@, Some(psk@), data@),
    {
        let key = U8Array::from_slice(s);
        let mut inner = HandshakeState::new(noise_ik_psk2(), false, prologue, Some(key), None, None, None);
        inner.push_psk(psk);
        let payload = inner.read_message_vec(data);
        let rs = inner.get_rs();
        (NoiseState { inner }, payload, rs)
    }

    /// Trusted: `noise_protocol::HandshakeState::get_ciphers` and
    /// `CipherState::extract` on each of the pair: the two transport keys, in
    /// the order of the pair. They come out of the hidden state, so nothing
    /// is promised of them.
    #[verifier::external_body]
    fn split_raw(&self) -> (r: ([u8; 32], [u8; 32])) {
        let (a, b) = self.state.inner.get_ciphers();
        (<[u8; 32]>::from_slice(a.extract().0.as_slice()), <[u8; 32]>::from_slice(b.extract().0.as_slice()))
    }

    /// Trusted: `Clone::clone` of `noise_protocol::HandshakeState`, an
    /// independent copy of the hidden state.
    #[verifier::external_body]
    fn clone_state(&self) -> (state: NoiseState) {
        NoiseState { inner: self.state.inner.clone() }
    }

    /// An independent copy in the same state, so that a message that may be
    /// forged can be read without spoiling the handshake.
    pub fn fork(&self) -> (r: HS)
        ensures
            r.same_as(self),
    {
        HS {
            state: self.clone_state(),
            is_initiator: self.is_initiator,
            messages: self.messages,
            psks: self.psks,
            failed: self.failed,
            pair: self.pair,
            fed: Ghost(self.fed@),
        }
    }

    /// A fresh IK handshake state, made from the prologue, this side's
    /// static key and, for the initiator, the responder's. With a pre-shared
    /// key the pattern is IKpsk2 and the key is queued for it.
    pub fn new(is_initiator: bool, prologue: &[u8], s: &[u8; 32], rs: Option<[u8; 32]>, psk: Option<[u8; 32]>) -> (hs: HS)
        requires
            is_initiator ==> rs.is_some(),
        ensures
            hs.spec_is_initiator() == is_initiator,
            hs.spec_messages() == 0,
            !hs.spec_failed(),
            !hs.established(),
            hs.fed() == spec_fresh(prologue@, s@, spec_key_bytes(rs), spec_key_bytes(psk)),
    {
        let ghost fed = spec_fresh(prologue@, s@, spec_key_bytes(rs), spec_key_bytes(psk));
        match psk {
            Some(k) => {
                let state = HS::new_ik_psk2(is_initiator, prologue, s, rs);
                let mut hs = HS {
                    state,
                    is_initiator,
                    messages: 0,
                    psks: 0,
                    failed: false,
                    pair: None,
                    fed: Ghost(fed),
                };
                hs.push_psk_raw(&k);
                hs.psks = 1;
                hs
            },
            None => {
                let state = HS::new_ik(is_initiator, prologue, s, rs);
                HS { state, is_initiator, messages: 0, psks: 0, failed: false, pair: None, fed: Ghost(fed) }
            },
        }
    }

    /// Write the next handshake message around `payload`.
    ///
    /// A state that has refused a message before, and one whose turn it is
    /// not, is left alone. Otherwise the Noise state takes the payload up:
    /// the message counts, and where the state refuses, it has failed for
    /// good. Once the second message has gone through, the transport keys
    /// are there.
    pub fn write_message(&mut self, payload: &[u8]) -> (r: Result<Vec<u8>, NoiseError>)
        ensures
            final(self).spec_is_initiator() == old(self).spec_is_initiator(),
            old(self).spec_failed() ==> r == Err::<Vec<u8>, NoiseError>(NoiseError::Failed) && final(self).same_as(old(self)),
            !old(self).spec_failed() && !old(self).our_turn_to_write() ==> r == Err::<
                Vec<u8>,
                NoiseError,
            >(NoiseError::OutOfTurn) && final(self).same_as(old(self)),
            old(self).our_turn_to_write() ==> {
                &&& final(self).spec_messages() == old(self).spec_messages() + 1
                &&& final(self).fed() == (Fed {
                    written: old(self).fed().written.push(payload@),
                    ..old(self).fed()
                })
                &&& final(self).spec_failed() == r.is_err()
                &&& r != Err::<Vec<u8>, NoiseError>(NoiseError::OutOfTurn)
                &&& r != Err::<Vec<u8>, NoiseError>(NoiseError::Failed)
                &&& final(self).established() == (old(self).established() || (r.is_ok() && old(self).spec_messages() == 1))
            },
            r matches Ok(v) ==> v@.len() == payload@.len() + spec_overhead(old(self).spec_messages()),
            old(self).established() ==> final(self).established() && final(self).spec_pair() == old(self).spec_pair(),
    {
        if self.failed {
            return Err(NoiseError::Failed);
        }
        if self.messages >= 2 || (self.messages == 0) != self.is_initiator {
            return Err(NoiseError::OutOfTurn);
        }
        let r = self.write_raw(payload);
        self.messages = self.messages + 1;
        self.fed = Ghost(Fed { written: self.fed@.written.push(payload@), ..self.fed@ });
        match r {
            Ok(v) => {
                self.settle();
                Ok(v)
            },
            Err(e) => {
                self.failed = true;
                Err(noise_error_kind(&e))
            },
        }
    }

    /// Take the transport keys out of the Noise state once the second
    /// message has gone through.
    fn settle(&mut self)
        requires
            !old(self).failed,
        ensures
            final(self).is_initiator == old(self).is_initiator,
            final(self).messages == old(self).messages,
            final(self).psks == old(self).psks,
            final(self).failed == old(self).failed,
            final(self).fed == old(self).fed,
            final(self).pair.is_some() == (old(self).pair.is_some() || old(self).messages == 2),
            old(self).pair.is_some() ==> final(self).pair == old(self).pair,
    {
        if self.messages == 2 && self.pair.is_none() {
            self.pair = Some(self.split_raw());
        }
    }

    /// Read the next handshake message and give its payload.
    ///
    /// A state that has refused a message before, and one whose turn it is
    /// not, is left alone; so is one that is handed a message shorter than
    /// the overhead of its place in the pattern. Otherwise the Noise state
    /// takes the message up: it counts, and where the state refuses it, the
    /// state has failed for good. Once the second message has gone through,
    /// the transport keys are there.
    pub fn read_message(&mut self, data: &[u8]) -> (r: Result<Vec<u8>, NoiseError>)
        ensures
            final(self).spec_is_initiator() == old(self).spec_is_initiator(),
            old(self).spec_failed() ==> r == Err::<Vec<u8>, NoiseError>(NoiseError::Failed) && final(self).same_as(old(self)),
            !old(self).spec_failed() && !old(self).our_turn_to_read() ==> r == Err::<
                Vec<u8>,
                NoiseError,
            >(NoiseError::OutOfTurn) && final(self).same_as(old(self)),
            old(self).our_turn_to_read() && data@.len() < spec_overhead(old(self).spec_messages())
                ==> r == Err::<Vec<u8>, NoiseError>(NoiseError::TooShort) && final(self).same_as(
                old(self),
            ),
            old(self).our_turn_to_read() && data@.len() >= spec_overhead(old(self).spec_messages())
                ==> {
                &&& final(self).spec_messages() == old(self).spec_messages() + 1
                &&& final(self).fed() == (Fed {
                    read: old(self).fed().read.push(data@),
                    ..old(self).fed()
                })
                &&& final(self).spec_failed() == r.is_err()
                &&& r != Err::<Vec<u8>, NoiseError>(NoiseError::OutOfTurn)
                &&& r != Err::<Vec<u8>, NoiseError>(NoiseError::Failed)
                &&& final(self).established() == (old(self).established() || (r.is_ok() && old(self).spec_messages() == 1))
            },
            r matches Ok(v) ==> v@.len() + spec_overhead(old(self).spec_messages()) == data@.len(),
            old(self).established() ==> final(self).established() && final(self).spec_pair() == old(self).spec_pair(),
    {
        if self.failed {
            return Err(NoiseError::Failed);
        }
        if self.messages >= 2 || (self.messages == 1) != self.is_initiator {
            return Err(NoiseError::OutOfTurn);
        }
        if data.len() < overhead(self.messages) {
            return Err(NoiseError::TooShort);
        }
        let r = self.read_raw(data);
        self.messages = self.messages + 1;
        self.fed = Ghost(Fed { read: self.fed@.read.push(data@), ..self.fed@ });
        match r {
            Ok(v) => {
                self.settle();
                Ok(v)
            },
            Err(e) => {
                self.failed = true;
                Err(noise_error_kind(&e))
            },
        }
    }

    /// Make a responder's state from the prologue, its static key and the
    /// pre-shared key, and let it read `data` as the first message of a
    /// handshake. What comes back is the state, the payload, and the
    /// initiator's static public key as the state then holds it.
    ///
    /// A message shorter than the overhead of the first message is refused
    /// before any state takes it up, and the state that comes back is
    /// fresh. Otherwise the message counts as read, and the state has
    /// failed for good where it refused it. Whether it does, and the payload
    /// and the key that come out, depend on the arguments alone.
    pub fn read_first(prologue: &[u8], s: &[u8; 32], psk: Option<[u8; 32]>, data: &[u8]) -> (r: (
        HS,
        Result<Vec<u8>, NoiseError>,
        Option<[u8; 32]>,
    ))
        ensures
            !r.0.spec_is_initiator(),
            !r.0.established(),
            data@.len() < spec_overhead(0) ==> {
                &&& r.1 == Err::<Vec<u8>, NoiseError>(NoiseError::TooShort)
                &&& r.2.is_none()
                &&& r.0.fresh_responder()
                &&& r.0.fed() == spec_fresh(prologue@, s@, None, spec_key_bytes(psk))
            },
            data@.len() >= spec_overhead(0) ==> {
                &&& r.0.spec_messages() == 1
                &&& r.0.spec_failed() == r.1.is_err()
                &&& r.0.fed() == (Fed {
                    read: seq![data@],
                    ..spec_fresh(prologue@, s@, None, spec_key_bytes(psk))
                })
                &&& r.1 != Err::<Vec<u8>, NoiseError>(NoiseError::OutOfTurn)
                &&& r.1 != Err::<Vec<u8>, NoiseError>(NoiseError::Failed)
                &&& r.1.is_ok() == ik_first_payload(prologue@, s@, spec_key_bytes(psk), data@).is_some()
                &&& r.1 matches Ok(v) ==> ik_first_payload(prologue@, s@, spec_key_bytes(psk), data@)
                    == Some(v@) && v@.len() + spec_overhead(0) == data@.len()
                &&& r.1.is_ok() ==> spec_key_bytes(r.2) == ik_first_static(
                    prologue@,
                    s@,
                    spec_key_bytes(psk),
                    data@,
                )
            },
    {
        if data.len() < overhead(0) {
            return (HS::new(false, prologue, s, None, psk), Err(NoiseError::TooShort), None);
        }
        let ghost fed = Fed {
            read: seq![data@],
            ..spec_fresh(prologue@, s@, None, spec_key_bytes(psk))
        };
        let (state, read, rs, psks) = match psk {
            Some(k) => {
                let (state, read, rs) = HS::read_first_ik_psk2(prologue, s, &k, data);
                (state, read, rs, 1u8)
            },
            None => {
                let (state, read, rs) = HS::read_first_ik(prologue, s, data);
                (state, read, rs, 0u8)
            },
        };
        match read {
            Ok(v) => (
                HS { state, is_initiator: false, messages: 1, psks, failed: false, pair: None, fed: Ghost(fed) },
                Ok(v),
                rs,
            ),
            Err(e) => (
                HS { state, is_initiator: false, messages: 1, psks, failed: true, pair: None, fed: Ghost(fed) },
                Err(noise_error_kind(&e)),
                rs,
            ),
        }
    }

    /// The transport keys of an established handshake as this side uses
    /// them: the key to send with, then the key to receive with.
    pub fn get_ciphers(&self) -> (r: ([u8; 32], [u8; 32]))
        requires
            self.established(),
        ensures
            r.0@ == self.spec_send_key(),
            r.1@ == self.spec_recv_key(),
            (r.0@, r.1@) == spec_keys_by_role(self.spec_is_initiator(), self.spec_pair()),
    {
        match self.pair {
            Some(k) => keys_by_role(self.is_initiator, k),
            None => ([0u8; 32], [0u8; 32]),
        }
    }

    /// Whether both messages have gone through and the transport keys are there.
    pub fn is_established(&self) -> (r: bool)
        ensures
            r == self.established(),
    {
        self.pair.is_some()
    }
}

} // verus!

//! Transport sessions: the keys of one completed handshake, and the data
//! messages sent and received under them.
use crate::endian::{le_value, lemma_le_round_trip, lemma_pow256_8, read_u64_le, write_u64_le};
use crate::wireguard::anti_replay::{AntiReplay, Window};
use crate::wireguard::noise::{
    aead_decrypt, aead_encrypt, chacha20poly1305_open, chacha20poly1305_seal, spec_keys_by_role, HS,
    TAG_LEN,
};
use crate::wireguard::types::{
    elapsed, seconds, spec_elapsed, spec_seconds, Id, KEEPALIVE_TIMEOUT, REJECT_AFTER_MESSAGES,
    REJECT_AFTER_TIME, REKEY_AFTER_MESSAGES, REKEY_AFTER_TIME, REKEY_TIMEOUT,
};
use vstd::prelude::*;
use vstd::slice::slice_subrange;

verus! {

/// Bytes before the ciphertext of a transport message: type, receiver index, counter.
pub const HEADER_LEN: usize = 16;

/// Bytes that a transport message is longer than what it carries.
pub const OVERHEAD: usize = 32;

/// Why a transport message was not sent or not accepted.
#[derive(Debug, Copy, Clone, PartialEq, Eq, Structural)]
pub enum TransportError {
    /// The message is shorter than a header and a tag.
    TooShort,
    /// The first four bytes are not those of a transport message.
    BadHeader,
    /// The session is older than `REJECT_AFTER_TIME`.
    Expired,
    /// The counter has reached `REJECT_AFTER_MESSAGES`.
    CounterExhausted,
    /// The ciphertext did not authenticate.
    Decryption,
    /// The counter is too old or was seen before.
    Replay,
}

/// The first four bytes of every transport message.
pub open spec fn spec_transport_type() -> Seq<u8> {
    seq![4u8, 0u8, 0u8, 0u8]
}

/// `packet` is the transport message for receiver `peer_id` with counter
/// `counter` around the ciphertext `body`.
pub open spec fn is_transport_packet(packet: Seq<u8>, peer_id: Seq<u8>, counter: u64, body: Seq<u8>) -> bool {
    &&& packet.len() == HEADER_LEN + body.len()
    &&& packet.subrange(0, 4) == spec_transport_type()
    &&& packet.subrange(4, 8) == peer_id
    &&& le_value(packet.subrange(8, 16)) == counter
    &&& packet.subrange(16, packet.len() as int) == body
}

/// The counter that a transport message carries.
pub open spec fn spec_counter(msg: Seq<u8>) -> u64 {
    le_value(msg.subrange(8, 16)) as u64
}

/// What a transport message opens to under `key`.
pub open spec fn spec_open(key: Seq<u8>, msg: Seq<u8>) -> Option<Seq<u8>> {
    chacha20poly1305_open(key, spec_counter(msg), Seq::<u8>::empty(), msg.subrange(16, msg.len() as int))
}

/// What a session remembers of what it received.
pub struct RecvStatus {
    pub ar: AntiReplay,
    pub last: Option<u64>,
}

/// A WireGuard transport session.
pub struct Transport {
    self_id: Id,
    peer_id: Id,
    // Whether the handshake is initiated by us.
    is_initiator: bool,
    created: u64,
    send_key: [u8; 32],
    recv_key: [u8; 32],
    recv_status: RecvStatus,
    send_counter: u64,
    last_send: Option<u64>,
}

/// `a` is later than `b`, where a time that is not set is earlier than any.
pub open spec fn spec_later(a: Option<u64>, b: Option<u64>) -> bool {
    match (a, b) {
        (Some(x), Some(y)) => x > y,
        (Some(_), None) => true,
        (None, _) => false,
    }
}

fn later(a: Option<u64>, b: Option<u64>) -> (r: bool)
    ensures
        r == spec_later(a, b),
{
    match a {
        Some(x) => match b {
            Some(y) => x > y,
            None => true,
        },
        None => false,
    }
}

impl Transport {
    /// Our index for this session.
    pub closed spec fn spec_self_id(&self) -> Id {
        self.self_id
    }

    /// The peer's index for this session.
    pub closed spec fn spec_peer_id(&self) -> Id {
        self.peer_id
    }

    /// Whether the handshake was initiated by us.
    pub closed spec fn spec_is_initiator(&self) -> bool {
        self.is_initiator
    }

    /// When the session was made.
    pub closed spec fn created(&self) -> u64 {
        self.created
    }

    /// The key that outgoing messages are sealed with.
    pub closed spec fn send_key(&self) -> Seq<u8> {
        self.send_key@
    }

    /// The key that incoming messages are opened with.
    pub closed spec fn recv_key(&self) -> Seq<u8> {
        self.recv_key@
    }

    /// The counter that the next outgoing message will carry.
    pub closed spec fn send_counter(&self) -> u64 {
        self.send_counter
    }

    /// When a message was last sent.
    pub closed spec fn last_send(&self) -> Option<u64> {
        self.last_send
    }

    /// When a message was last accepted.
    pub closed spec fn last_recv(&self) -> Option<u64> {
        self.recv_status.last
    }

    /// The anti-replay window of the receiving side.
    pub closed spec fn window(&self) -> Window {
        self.recv_status.ar@
    }

    /// Age of the session at `now`.
    pub open spec fn age(&self, now: u64) -> u64 {
        spec_elapsed(now, self.created())
    }

    /// The session has sent and received nothing since it was made at `now`
    /// between `self_id` and `peer_id`.
    pub open spec fn is_new(&self, self_id: Id, peer_id: Id, is_initiator: bool, now: u64) -> bool {
        &&& self.spec_self_id() == self_id
        &&& self.spec_peer_id() == peer_id
        &&& self.spec_is_initiator() == is_initiator
        &&& self.created() == now
        &&& self.send_counter() == 0
        &&& self.last_send().is_none()
        &&& self.last_recv().is_none()
        &&& self.window() == Window::start()
    }

    /// A session between `self_id` and `peer_id` under the keys of an
    /// established handshake, made at `now`, that has sent and received
    /// nothing. The initiator sends with the first key of the handshake's
    /// pair and receives with the second; the responder the other way round.
    pub fn new_from_hs(self_id: Id, peer_id: Id, hs: HS, now: u64) -> (t: Transport)
        requires
            hs.established(),
        ensures
            t.is_new(self_id, peer_id, hs.spec_is_initiator(), now),
            t.send_key() == hs.spec_send_key(),
            t.recv_key() == hs.spec_recv_key(),
            (t.send_key(), t.recv_key()) == spec_keys_by_role(hs.spec_is_initiator(), hs.spec_pair()),
    {
        let (sk, rk) = hs.get_ciphers();
        Transport::new_from_keys(self_id, peer_id, hs.get_is_initiator(), sk, rk, now)
    }

    /// A session between `self_id` and `peer_id` under the given keys, made at
    /// `now`, that has sent and received nothing.
    pub fn new_from_keys(self_id: Id, peer_id: Id, is_initiator: bool, send_key: [u8; 32], recv_key: [u8; 32], now: u64) -> (t: Transport)
        ensures
            t.is_new(self_id, peer_id, is_initiator, now),
            t.send_key() == send_key@,
            t.recv_key() == recv_key@,
    {
        Transport {
            self_id: self_id,
            peer_id: peer_id,
            is_initiator: is_initiator,
            send_key: send_key,
            recv_key: recv_key,
            created: now,
            recv_status: RecvStatus { ar: AntiReplay::new(), last: None },
            send_counter: 0,
            last_send: None,
        }
    }

    /// What `should_rekey` answers at `now`.
    pub open spec fn spec_should_rekey(&self, now: u64) -> bool {
        ||| (spec_later(self.last_send(), self.last_recv()) && spec_elapsed(
            self.last_send().unwrap(),
            self.last_recv().unwrap_or(self.created()),
        ) > spec_seconds((KEEPALIVE_TIMEOUT + REKEY_TIMEOUT) as u64))
        ||| self.age(now) >= spec_seconds(
            if self.spec_is_initiator() {
                REKEY_AFTER_TIME
            } else {
                (REKEY_AFTER_TIME + 2 * REKEY_TIMEOUT) as u64
            },
        )
        ||| self.send_counter() >= REKEY_AFTER_MESSAGES
    }

    /// Whether a new handshake is due: the last message sent came more than
    /// `KEEPALIVE_TIMEOUT + REKEY_TIMEOUT` after the last one received (or
    /// after the session's making, where none was), or the session is
    /// `REKEY_AFTER_TIME` old (two `REKEY_TIMEOUT` more for a responder), or
    /// `REKEY_AFTER_MESSAGES` have been sent.
    pub fn should_rekey(&self, now: u64) -> (r: bool)
        ensures
            r == self.spec_should_rekey(now),
    {
        let last_send = self.last_send;
        let last_recv = self.recv_status.last;
        if later(last_send, last_recv) {
            let sent: u64 = last_send.unwrap();
            let heard: u64 = match last_recv {
                Some(t) => t,
                None => self.created,
            };
            if elapsed(sent, heard) > seconds(KEEPALIVE_TIMEOUT + REKEY_TIMEOUT) {
                return true;
            }
        }
        let rekey_time: u64 = REKEY_AFTER_TIME + if self.is_initiator {
            0
        } else {
            2 * REKEY_TIMEOUT
        };
        elapsed(now, self.created) >= seconds(rekey_time) || self.send_counter >= REKEY_AFTER_MESSAGES
    }

    /// What `should_keepalive` answers.
    pub open spec fn spec_should_keepalive(&self) -> bool {
        &&& spec_later(self.last_recv(), self.last_send())
        &&& spec_elapsed(self.last_recv().unwrap(), self.last_send().unwrap_or(self.created()))
            >= spec_seconds(KEEPALIVE_TIMEOUT)
    }

    /// Whether an empty message is owed: something was received after the
    /// last message sent, at least `KEEPALIVE_TIMEOUT` after it (or after the
    /// session's making, where nothing was sent).
    pub fn should_keepalive(&self) -> (r: bool)
        ensures
            r == self.spec_should_keepalive(),
    {
        let last_send = self.last_send;
        let last_recv = self.recv_status.last;
        if later(last_recv, last_send) {
            let heard: u64 = last_recv.unwrap();
            let sent: u64 = match last_send {
                Some(t) => t,
                None => self.created,
            };
            elapsed(heard, sent) >= seconds(KEEPALIVE_TIMEOUT)
        } else {
            false
        }
    }

    /// What `should_delete` answers at `now`.
    pub open spec fn spec_should_delete(&self, now: u64) -> bool {
        self.age(now) >= spec_seconds((REJECT_AFTER_TIME * 3) as u64)
    }

    /// Whether the session is three `REJECT_AFTER_TIME` old.
    pub fn should_delete(&self, now: u64) -> (r: bool)
        ensures
            r == self.spec_should_delete(now),
    {
        elapsed(now, self.created) >= seconds(REJECT_AFTER_TIME * 3)
    }

    /// Our index for this session.
    #[verifier::when_used_as_spec(spec_self_id)]
    pub fn get_self_id(&self) -> (r: Id)
        ensures
            r == self.spec_self_id(),
    {
        self.self_id
    }

    /// `after` is the session `self` once it has tried to send at `now`: the
    /// send counter has stepped and `now` is the time of the last send, or,
    /// where the counter was exhausted, it is clamped and the time is as it
    /// was; keys, window and the time of the last receipt are untouched.
    pub open spec fn kept_alive(&self, after: &Transport, now: u64) -> bool {
        &&& after.same_session(self)
        &&& after.window() == self.window()
        &&& after.last_recv() == self.last_recv()
        &&& if self.send_counter() >= REJECT_AFTER_MESSAGES {
            after.send_counter() == REJECT_AFTER_MESSAGES && after.last_send() == self.last_send()
        } else {
            after.send_counter() == self.send_counter() + 1 && after.last_send() == Some(now)
        }
    }

    /// How `encrypt` of `msg` at `now` takes a session from `self` to `after`
    /// and what it returns.
    pub open spec fn encrypt_outcome(
        &self,
        after: &Transport,
        msg: Seq<u8>,
        now: u64,
        r: Result<Vec<u8>, TransportError>,
    ) -> bool {
        &&& after.same_session(self)
        &&& after.window() == self.window()
        &&& after.last_recv() == self.last_recv()
        &&& self.send_counter() >= REJECT_AFTER_MESSAGES ==> {
            &&& r == Err::<Vec<u8>, TransportError>(TransportError::CounterExhausted)
            &&& after.send_counter() == REJECT_AFTER_MESSAGES
            &&& after.last_send() == self.last_send()
        }
        &&& self.send_counter() < REJECT_AFTER_MESSAGES ==> {
            &&& r.is_ok()
            &&& after.send_counter() == self.send_counter() + 1
            &&& after.last_send() == Some(now)
            &&& is_transport_packet(
                r.unwrap()@,
                self.spec_peer_id()@,
                self.send_counter(),
                chacha20poly1305_seal(self.send_key(), self.send_counter(), Seq::<u8>::empty(), msg),
            )
            &&& r.unwrap()@.len() == msg.len() + OVERHEAD
            &&& spec_open(self.send_key(), r.unwrap()@) == Some(msg)
        }
    }

    /// `after` is the session `self` once it has accepted `msg` at `now`: the
    /// counter of `msg` is recorded and `now` is the time of the last receipt.
    pub open spec fn received(&self, after: &Transport, msg: Seq<u8>, now: u64) -> bool {
        &&& after.same_session(self)
        &&& after.send_counter() == self.send_counter()
        &&& after.last_send() == self.last_send()
        &&& after.window() == self.window().record(spec_counter(msg) as nat)
        &&& after.last_recv() == Some(now)
    }

    /// How `decrypt` of `msg` at `now` takes a session from `self` to `after`
    /// and what it returns.
    pub open spec fn decrypt_outcome(
        &self,
        after: &Transport,
        msg: Seq<u8>,
        now: u64,
        r: Result<Vec<u8>, TransportError>,
    ) -> bool {
        match r {
            Ok(v) => {
                &&& self.spec_decrypt(msg, now) == Ok::<Seq<u8>, TransportError>(v@)
                &&& self.received(after, msg, now)
            },
            Err(e) => {
                &&& self.spec_decrypt(msg, now) == Err::<Seq<u8>, TransportError>(e)
                &&& *after == *self
            },
        }
    }

    /// The counter that the next outgoing message will carry.
    pub fn get_send_counter(&self) -> (r: u64)
        ensures
            r == self.send_counter(),
    {
        self.send_counter
    }

    /// When a message was last sent.
    pub fn get_last_send(&self) -> (r: Option<u64>)
        ensures
            r == self.last_send(),
    {
        self.last_send
    }

    /// When a message was last accepted.
    pub fn get_last_recv(&self) -> (r: Option<u64>)
        ensures
            r == self.last_recv(),
    {
        self.recv_status.last
    }

    /// The peer's index for this session.
    pub fn get_peer_id(&self) -> (r: Id)
        ensures
            r == self.spec_peer_id(),
    {
        self.peer_id
    }

    /// Move the send counter ahead to `counter`; a counter that is there
    /// already, or past it, stays.
    pub fn skip_to(&mut self, counter: u64)
        ensures
            final(self).same_session(old(self)),
            final(self).window() == old(self).window(),
            final(self).last_recv() == old(self).last_recv(),
            final(self).last_send() == old(self).last_send(),
            final(self).send_counter() == if old(self).send_counter() < counter {
                counter
            } else {
                old(self).send_counter()
            },
    {
        if self.send_counter < counter {
            self.send_counter = counter;
        }
    }

    /// Seal `msg` into a transport message.
    ///
    /// The counter is taken and stepped first. Where it had reached
    /// `REJECT_AFTER_MESSAGES` nothing is sent and it is clamped there;
    /// otherwise the message carries it, and `now` becomes the time of the
    /// last send. What comes out opens, under the same key, to `msg`.
    pub fn encrypt(&mut self, msg: &[u8], now: u64) -> (r: Result<Vec<u8>, TransportError>)
        requires
            msg@.len() + OVERHEAD <= usize::MAX,
        ensures
            old(self).encrypt_outcome(final(self), msg@, now, r),
    {
        let c: u64 = self.send_counter;
        if c >= REJECT_AFTER_MESSAGES {
            // To avoid overflow wrapping.
            self.send_counter = REJECT_AFTER_MESSAGES;
            return Err(TransportError::CounterExhausted);
        }
        self.send_counter = c + 1;

        let mut counter = [0u8; 8];
        write_u64_le(&mut counter, c);
        proof {
            lemma_pow256_8();
            lemma_le_round_trip(c as nat, 8);
        }

        let body_len: usize = msg.len() + TAG_LEN;
        let mut body: Vec<u8> = vec![0u8; body_len];
        let ad: [u8; 0] = [];
        aead_encrypt(&self.send_key, c, ad.as_slice(), msg, &mut body);
        assert(ad@ =~= Seq::<u8>::empty());

        let mut out: Vec<u8> = Vec::with_capacity(msg.len() + OVERHEAD);
        out.push(4);
        out.push(0);
        out.push(0);
        out.push(0);
        out.extend_from_slice(self.peer_id.as_slice());
        out.extend_from_slice(counter.as_slice());
        out.extend_from_slice(body.as_slice());

        self.last_send = Some(now);

        proof {
            let p = out@;
            assert(p.subrange(0, 4) =~= spec_transport_type());
            assert(p.subrange(4, 8) =~= self.peer_id@);
            assert(p.subrange(8, 16) =~= counter@);
            assert(p.subrange(16, p.len() as int) =~= body@);
        }
        Ok(out)
    }

    /// The session is the same but for counters, times and window.
    pub open spec fn same_session(&self, other: &Transport) -> bool {
        &&& self.spec_self_id() == other.spec_self_id()
        &&& self.spec_peer_id() == other.spec_peer_id()
        &&& self.spec_is_initiator() == other.spec_is_initiator()
        &&& self.created() == other.created()
        &&& self.send_key() == other.send_key()
        &&& self.recv_key() == other.recv_key()
    }

    /// What `decrypt` answers to `msg` at `now`: the first of its checks that
    /// fails, or the plaintext.
    pub open spec fn spec_decrypt(&self, msg: Seq<u8>, now: u64) -> Result<Seq<u8>, TransportError> {
        if msg.len() < OVERHEAD {
            Err(TransportError::TooShort)
        } else if msg.subrange(0, 4) != spec_transport_type() {
            Err(TransportError::BadHeader)
        } else if self.age(now) >= spec_seconds(REJECT_AFTER_TIME) {
            Err(TransportError::Expired)
        } else if spec_counter(msg) >= REJECT_AFTER_MESSAGES {
            Err(TransportError::CounterExhausted)
        } else if spec_open(self.recv_key(), msg).is_none() {
            Err(TransportError::Decryption)
        } else if !self.window().accepts(spec_counter(msg) as nat) {
            Err(TransportError::Replay)
        } else {
            Ok(spec_open(self.recv_key(), msg).unwrap())
        }
    }

    /// Open a transport message.
    ///
    /// In this order: the message holds at least a header and a tag; it
    /// starts with `04 00 00 00`; the session is younger than
    /// `REJECT_AFTER_TIME`; the counter is below `REJECT_AFTER_MESSAGES`; the
    /// ciphertext authenticates under the receiving key; the counter passes
    /// the anti-replay window. Only a message that passes all of them changes
    /// the session: its counter is recorded and `now` becomes the time of the
    /// last receipt.
    pub fn decrypt(&mut self, msg: &[u8], now: u64) -> (r: Result<Vec<u8>, TransportError>)
        ensures
            old(self).decrypt_outcome(final(self), msg@, now, r),
    {
        if msg.len() < OVERHEAD {
            return Err(TransportError::TooShort);
        }
        if msg[0] != 4 || msg[1] != 0 || msg[2] != 0 || msg[3] != 0 {
            proof {
                let h = msg@.subrange(0, 4);
                assert(h[0] == msg@[0] && h[1] == msg@[1] && h[2] == msg@[2] && h[3] == msg@[3]);
            }
            return Err(TransportError::BadHeader);
        }
        assert(msg@.subrange(0, 4) =~= spec_transport_type());
        if elapsed(now, self.created) >= seconds(REJECT_AFTER_TIME) {
            return Err(TransportError::Expired);
        }
        let counter: u64 = read_u64_le(slice_subrange(msg, 8, 16));
        assert(msg@.subrange(8, 16).subrange(0, 8) =~= msg@.subrange(8, 16));
        if counter >= REJECT_AFTER_MESSAGES {
            return Err(TransportError::CounterExhausted);
        }
        let plain_len: usize = msg.len() - OVERHEAD;
        let mut out: Vec<u8> = vec![0u8; plain_len];
        let ad: [u8; 0] = [];
        assert(ad@ =~= Seq::<u8>::empty());
        if !aead_decrypt(&self.recv_key, counter, ad.as_slice(), slice_subrange(msg, 16, msg.len()), &mut out) {
            return Err(TransportError::Decryption);
        }
        if !self.recv_status.ar.check_and_update(counter) {
            return Err(TransportError::Replay);
        }
        self.recv_status.last = Some(now);
        Ok(out)
    }
}


/// Round trip: what one side seals, the other side opens to the same
/// plaintext, provided that the receiving key is the sealing key, the
/// receiving session is younger than `REJECT_AFTER_TIME`, and its window
/// still accepts the counter.
pub proof fn lemma_round_trip(
    sender: Transport,
    sender_after: Transport,
    receiver: Transport,
    plaintext: Seq<u8>,
    sent_at: u64,
    received_at: u64,
    sealed: Result<Vec<u8>, TransportError>,
)
    requires
        sender.encrypt_outcome(&sender_after, plaintext, sent_at, sealed),
        sender.send_counter() < REJECT_AFTER_MESSAGES,
        receiver.recv_key() == sender.send_key(),
        receiver.age(received_at) < spec_seconds(REJECT_AFTER_TIME),
        receiver.window().accepts(sender.send_counter() as nat),
    ensures
        sealed.is_ok(),
        receiver.spec_decrypt(sealed.unwrap()@, received_at) == Ok::<Seq<u8>, TransportError>(plaintext),
{
    let packet = sealed.unwrap()@;
    assert(packet.len() >= OVERHEAD);
    assert(spec_counter(packet) == sender.send_counter());
}

/// Replay: a message that a session has accepted is refused by it ever after.
pub proof fn lemma_replay_refused(before: Transport, after: Transport, msg: Seq<u8>, now: u64, later: u64)
    requires
        before.spec_decrypt(msg, now).is_ok(),
        before.received(&after, msg, now),
    ensures
        after.spec_decrypt(msg, later).is_err(),
        after.age(later) < spec_seconds(REJECT_AFTER_TIME) ==> after.spec_decrypt(msg, later)
            == Err::<Seq<u8>, TransportError>(TransportError::Replay),
{
    let n = spec_counter(msg) as nat;
    assert(before.window().accepts(n));
    assert(after.window() == before.window().record(n));
    assert(after.window().seen.contains(n));
}

} // verus!

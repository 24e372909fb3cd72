//! Handshake messages generation and parsing.
use crate::endian::{spec_be_u32, spec_be_u64};
use crate::wireguard::noise::{
    blake2s_digest, blake2s_hash, ik_first_payload, ik_first_static, spec_fresh, spec_key_bytes, Fed,
    NoiseError, HS,
};
use crate::wireguard::types::{Id, PeerInfo, WgInfo};
use tai64::Tai64N;
use vstd::prelude::*;
use vstd::slice::slice_subrange;

verus! {

/// Length of a handshake initiation.
pub const INITIATION_LEN: usize = 148;

/// Length of a handshake response.
pub const RESPONSE_LEN: usize = 92;

/// Length of a MAC field.
pub const MAC_LEN: usize = 16;

/// Bytes of an initiation that MAC1 covers.
pub const INITIATION_BODY_LEN: usize = 116;

/// Bytes of a response that MAC1 covers.
pub const RESPONSE_BODY_LEN: usize = 60;

/// Message type of an initiation.
pub const TYPE_INITIATION: u8 = 1;

/// Message type of a response.
pub const TYPE_RESPONSE: u8 = 2;

/// Message type of a cookie reply.
pub const TYPE_COOKIE_REPLY: u8 = 3;

/// Message type of a transport message.
pub const TYPE_TRANSPORT: u8 = 4;

/// A TAI64N label: seconds and nanoseconds.
#[derive(Debug, Copy, Clone, PartialEq, Eq, Structural)]
pub struct Timestamp {
    pub secs: u64,
    pub nanos: u32,
}

impl Timestamp {
    /// `self` is strictly later than `other`.
    pub open spec fn spec_later_than(&self, other: &Timestamp) -> bool {
        self.secs > other.secs || (self.secs == other.secs && self.nanos > other.nanos)
    }

    /// `self` is strictly later than `other`.
    pub fn later_than(&self, other: &Timestamp) -> (r: bool)
        ensures
            r == self.spec_later_than(other),
    {
        self.secs > other.secs || (self.secs == other.secs && self.nanos > other.nanos)
    }
}

/// The timestamp that twelve bytes spell: eight of seconds, four of
/// nanoseconds, both in network order, the nanoseconds below a second.
pub open spec fn spec_timestamp(b: Seq<u8>) -> Option<Timestamp> {
    if b.len() == 12 && spec_be_u32(b.subrange(8, 12)) < 1_000_000_000 {
        Some(Timestamp { secs: spec_be_u64(b.subrange(0, 8)), nanos: spec_be_u32(b.subrange(8, 12)) })
    } else {
        None
    }
}

/// Trusted: `tai64::Tai64N::from_slice`. It accepts exactly twelve bytes
/// whose last four, read in network order, are below a thousand million, and
/// reads the first eight as the seconds.
#[verifier::external_body]
pub(crate) fn tai64n_from_slice(b: &[u8]) -> (r: Option<Timestamp>)
    ensures
        r == spec_timestamp(b@),
{
    match Tai64N::from_slice(b) {
        Ok(t) => Some(Timestamp { secs: (t.0).0, nanos: t.1 }),
        Err(_) => None,
    }
}

/// Trusted: `tai64::Tai64N::now` and `to_bytes`: the system clock's time in
/// its twelve-byte form. It changes from call to call, so only its being a
/// timestamp is promised.
#[verifier::external_body]
pub(crate) fn tai64n_now() -> (r: [u8; 12])
    ensures
        spec_timestamp(r@).is_some(),
{
    Tai64N::now().to_bytes()
}

/// Why a handshake message was not produced or not accepted.
#[derive(Debug, Copy, Clone, PartialEq, Eq, Structural)]
pub enum HandshakeError {
    /// The message is shorter than its kind requires.
    TooShort,
    /// MAC1 is not the one that the message's bytes call for.
    Mac1,
    /// The Noise state refused the message.
    Noise(NoiseError),
    /// The initiator's static key is missing from the Noise state.
    NoStaticKey,
    /// The payload of an initiation is not a timestamp, or that of a
    /// response is not empty.
    BadPayload,
}

/// The ASCII text `mac1--`.
pub open spec fn spec_label_mac1() -> Seq<u8> {
    seq![109u8, 97u8, 99u8, 49u8, 45u8, 45u8]
}

/// The key of MAC1 on messages to the owner of `pubkey`.
pub open spec fn spec_mac1_key(pubkey: Seq<u8>) -> Seq<u8> {
    blake2s_digest(32, Seq::<u8>::empty(), spec_label_mac1() + pubkey)
}

/// MAC1 of `body` on a message to the owner of `pubkey`.
pub open spec fn spec_mac1(pubkey: Seq<u8>, body: Seq<u8>) -> Seq<u8> {
    blake2s_digest(16, spec_mac1_key(pubkey), body)
}

/// Sixteen zero bytes: a MAC2 field that is not in use.
pub open spec fn spec_no_mac() -> Seq<u8> {
    Seq::new(16, |i: int| 0u8)
}

/// The prologue of every handshake: the ASCII text
/// `WireGuard v1 zx2c4 Jason@zx2c4.com`.
pub open spec fn spec_prologue() -> Seq<u8> {
    seq![
        87u8, 105u8, 114u8, 101u8, 71u8, 117u8, 97u8, 114u8, 100u8, 32u8, 118u8, 49u8, 32u8, 122u8,
        120u8, 50u8, 99u8, 52u8, 32u8, 74u8, 97u8, 115u8, 111u8, 110u8, 64u8, 122u8, 120u8, 50u8, 99u8,
        52u8, 46u8, 99u8, 111u8, 109u8,
    ]
}

/// The prologue of every handshake: `WireGuard v1 zx2c4 Jason@zx2c4.com`.
fn prologue() -> (r: [u8; 34])
    ensures
        r@ == spec_prologue(),
{
    let r: [u8; 34] = [
        87, 105, 114, 101, 71, 117, 97, 114, 100, 32, 118, 49, 32, 122, 120, 50, 99, 52, 32, 74, 97,
        115, 111, 110, 64, 122, 120, 50, 99, 52, 46, 99, 111, 109,
    ];
    assert(r@ =~= spec_prologue());
    r
}

/// What the Noise state of a handshake of ours is made from, before
/// anything is written or read: the prologue, our static key, the peer's
/// static key where we initiate, and the pre-shared key.
pub open spec fn spec_made(info: WgInfo, rs: Option<Seq<u8>>) -> Fed {
    spec_fresh(spec_prologue(), info.key@, rs, spec_key_bytes(info.psk))
}

/// `hs` is the Noise state of an initiation of ours to the owner of
/// `peer_pubkey`: made for that peer, with one payload written, a TAI64N
/// timestamp, and nothing read.
pub open spec fn spec_initiation_state(hs: HS, info: WgInfo, peer_pubkey: Seq<u8>) -> bool {
    &&& hs.spec_is_initiator()
    &&& hs.spec_messages() == 1
    &&& !hs.spec_failed()
    &&& !hs.established()
    &&& hs.fed().written.len() == 1
    &&& spec_timestamp(hs.fed().written[0]).is_some()
    &&& hs.fed() == (Fed { written: hs.fed().written, ..spec_made(info, Some(peer_pubkey)) })
}

/// An error that the Noise state itself gave.
pub open spec fn spec_refused_by_noise(e: HandshakeError) -> bool {
    e matches HandshakeError::Noise(n) && n != NoiseError::OutOfTurn && n != NoiseError::Failed
}

/// Whether two byte strings are the same.
pub fn bytes_eq(a: &[u8], b: &[u8]) -> (r: bool)
    ensures
        r == (a@ == b@),
{
    if a.len() != b.len() {
        return false;
    }
    let mut i: usize = 0;
    while i < a.len()
        invariant
            a@.len() == b@.len(),
            i <= a@.len(),
            forall|j: int| 0 <= j < i ==> a@[j] == b@[j],
        decreases a@.len() - i,
    {
        if a[i] != b[i] {
            return false;
        }
        i = i + 1;
    }
    assert(a@ =~= b@);
    true
}

/// MAC1 of `body` on a message to the owner of `pubkey`.
pub fn mac1(pubkey: &[u8; 32], body: &[u8]) -> (m: Vec<u8>)
    ensures
        m@ == spec_mac1(pubkey@, body@),
        m@.len() == MAC_LEN,
{
    let label: [u8; 6] = [109, 97, 99, 49, 45, 45];
    let mut input: Vec<u8> = Vec::new();
    input.extend_from_slice(label.as_slice());
    input.extend_from_slice(pubkey.as_slice());
    let none: [u8; 0] = [];
    assert(none@ =~= Seq::<u8>::empty());
    assert(input@ =~= spec_label_mac1() + pubkey@);
    let key = blake2s_hash(32, none.as_slice(), input.as_slice());
    blake2s_hash(MAC_LEN, key.as_slice(), body)
}

/// `header`, then `sender`, then `rest`, then MAC1 of all that on a message
/// to the owner of `pubkey`, then an unused MAC2.
pub open spec fn spec_frame(header: Seq<u8>, rest: Seq<u8>, pubkey: Seq<u8>) -> Seq<u8> {
    header + rest + spec_mac1(pubkey, header + rest) + spec_no_mac()
}

/// Put a handshake message together: `header`, `rest`, MAC1 of both under
/// the receiver's public key, and a MAC2 of zeros.
pub fn frame(header: &[u8], rest: &[u8], pubkey: &[u8; 32]) -> (out: Vec<u8>)
    ensures
        out@ == spec_frame(header@, rest@, pubkey@),
        out@.len() == header@.len() + rest@.len() + 2 * MAC_LEN,
{
    let mut out: Vec<u8> = Vec::new();
    out.extend_from_slice(header);
    out.extend_from_slice(rest);
    assert(out@ =~= header@ + rest@);
    let m = mac1(pubkey, out.as_slice());
    out.extend_from_slice(m.as_slice());
    let zeros: [u8; 16] = [0u8; 16];
    assert(zeros@ =~= spec_no_mac());
    out.extend_from_slice(zeros.as_slice());
    assert(out@ =~= spec_frame(header@, rest@, pubkey@));
    out
}

/// The first `body_len` bytes of `msg` are followed by their MAC1 under the
/// public key `pubkey`.
pub open spec fn spec_mac1_valid(pubkey: Seq<u8>, msg: Seq<u8>, body_len: int) -> bool {
    msg.len() >= body_len + MAC_LEN && msg.subrange(body_len, body_len + MAC_LEN) == spec_mac1(
        pubkey,
        msg.subrange(0, body_len),
    )
}

/// Whether MAC1 of a handshake message, which follows its first `body_len`
/// bytes, is the one that our public key calls for.
pub fn verify_mac1(pubkey: &[u8; 32], msg: &[u8], body_len: usize) -> (ok: bool)
    requires
        body_len + MAC_LEN <= usize::MAX,
    ensures
        ok == spec_mac1_valid(pubkey@, msg@, body_len as int),
{
    if msg.len() < body_len + MAC_LEN {
        return false;
    }
    let m = mac1(pubkey, slice_subrange(msg, 0, body_len));
    bytes_eq(m.as_slice(), slice_subrange(msg, body_len, body_len + MAC_LEN))
}

/// What the responder learns from an initiation.
pub struct Initiation {
    /// The Noise state, ready for the response to be written.
    pub handshake_state: HS,
    /// The initiator's static public key.
    pub peer_pubkey: [u8; 32],
    /// The initiator's index for the session.
    pub peer_id: Id,
    /// The initiator's clock at the time of sending.
    pub timestamp: Timestamp,
}

/// The header of a message of type `kind` from `sender`, with `receiver`
/// where the kind names one.
pub open spec fn spec_header(kind: u8, sender: Seq<u8>, receiver: Seq<u8>) -> Seq<u8> {
    seq![kind, 0u8, 0u8, 0u8] + sender + receiver
}

fn header(kind: u8, sender: Id, receiver: Option<Id>) -> (h: Vec<u8>)
    ensures
        h@ == spec_header(
            kind,
            sender@,
            match receiver {
                Some(r) => r@,
                None => Seq::<u8>::empty(),
            },
        ),
        h@.len() == 8 + (if receiver.is_some() {
            4int
        } else {
            0int
        }),
{
    let mut h: Vec<u8> = Vec::new();
    h.push(kind);
    h.push(0);
    h.push(0);
    h.push(0);
    assert(h@ =~= seq![kind, 0u8, 0u8, 0u8]);
    h.extend_from_slice(sender.as_slice());
    match receiver {
        Some(r) => {
            h.extend_from_slice(r.as_slice());
        },
        None => {
            assert(h@ + Seq::<u8>::empty() =~= h@);
        },
    }
    h
}

/// What `initiate` returns once the Noise state has answered: the framed
/// message where it gave one, its error otherwise.
pub fn finish_initiation(
    written: Result<Vec<u8>, NoiseError>,
    peer_pubkey: &[u8; 32],
    self_id: Id,
) -> (r: Result<Vec<u8>, HandshakeError>)
    ensures
        match written {
            Ok(m) => r.is_ok() && r.unwrap()@ == spec_frame(
                spec_header(TYPE_INITIATION, self_id@, Seq::<u8>::empty()),
                m@,
                peer_pubkey@,
            ) && r.unwrap()@.len() == 8 + m@.len() + 2 * MAC_LEN,
            Err(e) => r == Err::<Vec<u8>, HandshakeError>(HandshakeError::Noise(e)),
        },
{
    match written {
        Ok(m) => {
            let h = header(TYPE_INITIATION, self_id, None);
            Ok(frame(h.as_slice(), m.as_slice(), peer_pubkey))
        },
        Err(e) => Err(HandshakeError::Noise(e)),
    }
}

/// Build a handshake initiation to a peer.
///
/// The message names `self_id` as the sender and carries the current TAI64N
/// time in its encrypted payload; MAC1 is keyed by the peer's public key and
/// MAC2 is left at zero. The Noise state that comes with it waits for the
/// response. The ephemeral key and the clock are not ours to foretell, so of
/// a message that was produced its frame is stated, and of the Noise state
/// what it was made from and given to write. It fails only where the Noise
/// state refuses to write, and then with the state's own error.
pub fn initiate(info: &WgInfo, peer_info: &PeerInfo, self_id: Id) -> (r: Result<(Vec<u8>, HS), HandshakeError>)
    ensures
        r matches Ok((m, hs)) ==> {
            &&& m@.len() == INITIATION_LEN
            &&& m@.subrange(0, 8) == spec_header(TYPE_INITIATION, self_id@, Seq::<u8>::empty())
            &&& spec_mac1_valid(peer_info.peer_pubkey@, m@, INITIATION_BODY_LEN as int)
            &&& m@.subrange(132, 148) == spec_no_mac()
            &&& spec_initiation_state(hs, *info, peer_info.peer_pubkey@)
        },
        r matches Err(e) ==> spec_refused_by_noise(e),
{
    let now = tai64n_now();
    let p = prologue();
    let mut hs = HS::new(true, p.as_slice(), &info.key, Some(peer_info.peer_pubkey), info.psk);
    let written = hs.write_message(now.as_slice());
    match finish_initiation(written, &peer_info.peer_pubkey, self_id) {
        Ok(m) => {
            proof {
                let h = spec_header(TYPE_INITIATION, self_id@, Seq::<u8>::empty());
                let body = written.unwrap()@;
                assert(h.len() == 8);
                assert(m@.subrange(0, 8) =~= h);
                assert(m@.subrange(0, INITIATION_BODY_LEN as int) =~= h + body);
                assert(m@.subrange(116, 132) =~= spec_mac1(peer_info.peer_pubkey@, h + body));
                assert(m@.subrange(132, 148) =~= spec_no_mac());
            }
            Ok((m, hs))
        },
        Err(e) => Err(e),
    }
}

/// What `process_initiation` returns once MAC1 has passed and the Noise
/// state has answered.
pub fn finish_process_initiation(
    hs: HS,
    payload: Result<Vec<u8>, NoiseError>,
    rs: Option<[u8; 32]>,
    peer_id: Id,
) -> (r: Result<Initiation, HandshakeError>)
    ensures
        match payload {
            Err(e) => (r matches Err(x) && x == HandshakeError::Noise(e)),
            Ok(p) => match rs {
                None => (r matches Err(x) && x == HandshakeError::NoStaticKey),
                Some(k) => match spec_timestamp(p@) {
                    None => (r matches Err(x) && x == HandshakeError::BadPayload),
                    Some(t) => r.is_ok() && r.unwrap().timestamp == t && r.unwrap().peer_pubkey == k
                        && r.unwrap().peer_id == peer_id && r.unwrap().handshake_state == hs,
                },
            },
        },
{
    match payload {
        Err(e) => Err(HandshakeError::Noise(e)),
        Ok(p) => match rs {
            None => Err(HandshakeError::NoStaticKey),
            Some(k) => match tai64n_from_slice(p.as_slice()) {
                None => Err(HandshakeError::BadPayload),
                Some(t) => Ok(
                    Initiation { handshake_state: hs, peer_pubkey: k, peer_id: peer_id, timestamp: t },
                ),
            },
        },
    }
}

/// What an initiation holds for the owner of `info`: the initiator's static
/// public key and its timestamp. There is none where the message is shorter
/// than its 132 bytes up to MAC1, where MAC1 is not the one that the owner's
/// public key calls for, where the Noise state of a responder made from the
/// owner's keys refuses the message, or where the payload is no timestamp.
pub open spec fn spec_initiation(info: WgInfo, bytes: Seq<u8>) -> Option<(Seq<u8>, Timestamp)> {
    if bytes.len() < INITIATION_BODY_LEN + MAC_LEN || !spec_mac1_valid(
        info.pubkey@,
        bytes,
        INITIATION_BODY_LEN as int,
    ) {
        None
    } else {
        let data = bytes.subrange(8, INITIATION_BODY_LEN as int);
        let psk = spec_key_bytes(info.psk);
        match (
            ik_first_payload(spec_prologue(), info.key@, psk, data),
            ik_first_static(spec_prologue(), info.key@, psk, data),
        ) {
            (Some(p), Some(k)) => match spec_timestamp(p) {
                Some(t) => Some((k, t)),
                None => None,
            },
            _ => None,
        }
    }
}

/// `hs` is the Noise state of a responder, the owner of `info`, that has
/// read the first message `data` and written nothing.
pub open spec fn spec_responder_state(hs: HS, info: WgInfo, data: Seq<u8>) -> bool {
    &&& hs.responder_after_read()
    &&& !hs.established()
    &&& hs.fed() == (Fed { read: seq![data], ..spec_made(info, None) })
}

/// Take a handshake initiation apart.
///
/// A message shorter than its 132 bytes up to MAC1 is refused, then one
/// whose MAC1 is not the one our public key calls for; only after that does
/// a Noise state made from our keys read it, and the static key and the
/// timestamp come out. Whether the sender is a known peer is for the caller
/// to find out.
pub fn process_initiation(info: &WgInfo, bytes: &[u8]) -> (r: Result<Initiation, HandshakeError>)
    ensures
        (r matches Err(x) && x == HandshakeError::TooShort) <==> bytes@.len() < INITIATION_BODY_LEN
            + MAC_LEN,
        (r matches Err(x) && x == HandshakeError::Mac1) <==> bytes@.len() >= INITIATION_BODY_LEN
            + MAC_LEN && !spec_mac1_valid(info.pubkey@, bytes@, INITIATION_BODY_LEN as int),
        r.is_ok() <==> spec_initiation(*info, bytes@).is_some(),
        r matches Ok(i) ==> {
            &&& spec_initiation(*info, bytes@) == Some((i.peer_pubkey@, i.timestamp))
            &&& i.peer_id@ == bytes@.subrange(4, 8)
            &&& spec_responder_state(
                i.handshake_state,
                *info,
                bytes@.subrange(8, INITIATION_BODY_LEN as int),
            )
        },
{
    if bytes.len() < INITIATION_BODY_LEN + MAC_LEN {
        return Err(HandshakeError::TooShort);
    }
    if !verify_mac1(&info.pubkey, bytes, INITIATION_BODY_LEN) {
        return Err(HandshakeError::Mac1);
    }
    let peer_id = Id::from_slice(slice_subrange(bytes, 4, 8));
    let p = prologue();
    let (hs, payload, rs) = HS::read_first(
        p.as_slice(),
        &info.key,
        info.psk,
        slice_subrange(bytes, 8, INITIATION_BODY_LEN),
    );
    finish_process_initiation(hs, payload, rs, peer_id)
}

/// What `responde` returns once the Noise state has answered.
pub fn finish_response(
    written: Result<Vec<u8>, NoiseError>,
    peer_pubkey: &[u8; 32],
    self_id: Id,
    peer_id: Id,
) -> (r: Result<Vec<u8>, HandshakeError>)
    ensures
        match written {
            Ok(m) => r.is_ok() && r.unwrap()@ == spec_frame(
                spec_header(TYPE_RESPONSE, self_id@, peer_id@),
                m@,
                peer_pubkey@,
            ) && r.unwrap()@.len() == 12 + m@.len() + 2 * MAC_LEN,
            Err(e) => r == Err::<Vec<u8>, HandshakeError>(HandshakeError::Noise(e)),
        },
{
    match written {
        Ok(m) => {
            let h = header(TYPE_RESPONSE, self_id, Some(peer_id));
            Ok(frame(h.as_slice(), m.as_slice(), peer_pubkey))
        },
        Err(e) => Err(HandshakeError::Noise(e)),
    }
}

/// Build the response to an initiation.
///
/// The message names `self_id` as the sender and the initiator's index as
/// the receiver, carries an empty encrypted payload, and has MAC1 keyed by
/// the initiator's public key. The Noise state is given the empty payload
/// to write and is established where it does. A state that has failed, or
/// whose turn it is not, is left alone; otherwise a failure is the Noise
/// state's own.
pub fn responde(info: &WgInfo, initiation: &mut Initiation, self_id: Id) -> (r: Result<Vec<u8>, HandshakeError>)
    ensures
        final(initiation).peer_pubkey == old(initiation).peer_pubkey,
        final(initiation).peer_id == old(initiation).peer_id,
        final(initiation).timestamp == old(initiation).timestamp,
        final(initiation).handshake_state.spec_is_initiator() == old(initiation).handshake_state.spec_is_initiator(),
        old(initiation).handshake_state.spec_failed() ==> r == Err::<Vec<u8>, HandshakeError>(
            HandshakeError::Noise(NoiseError::Failed),
        ) && final(initiation).handshake_state.same_as(&old(initiation).handshake_state),
        !old(initiation).handshake_state.spec_failed() && !old(initiation).handshake_state.our_turn_to_write()
            ==> r == Err::<Vec<u8>, HandshakeError>(HandshakeError::Noise(NoiseError::OutOfTurn))
            && final(initiation).handshake_state.same_as(&old(initiation).handshake_state),
        old(initiation).handshake_state.our_turn_to_write() ==> {
            &&& final(initiation).handshake_state.spec_messages() == old(initiation).handshake_state.spec_messages() + 1
            &&& final(initiation).handshake_state.fed() == (Fed {
                written: old(initiation).handshake_state.fed().written.push(Seq::<u8>::empty()),
                ..old(initiation).handshake_state.fed()
            })
            &&& final(initiation).handshake_state.spec_failed() == r.is_err()
            &&& r matches Err(e) ==> spec_refused_by_noise(e)
            &&& final(initiation).handshake_state.established() == (old(initiation).handshake_state.established() || (r.is_ok() && old(initiation).handshake_state.spec_messages() == 1))
        },
        r matches Ok(m) ==> {
            &&& old(initiation).handshake_state.spec_messages() == 1 ==> m@.len() == RESPONSE_LEN
            &&& m@.subrange(0, 12) == spec_header(TYPE_RESPONSE, self_id@, old(initiation).peer_id@)
            &&& m@.len() >= RESPONSE_BODY_LEN ==> spec_mac1_valid(
                old(initiation).peer_pubkey@,
                m@,
                m@.len() - 2 * MAC_LEN,
            )
        },
{
    let empty: [u8; 0] = [];
    assert(empty@ =~= Seq::<u8>::empty());
    let written = initiation.handshake_state.write_message(empty.as_slice());
    let r = finish_response(written, &initiation.peer_pubkey, self_id, initiation.peer_id);
    proof {
        if r.is_ok() {
            let m = r.unwrap();
            let h = spec_header(TYPE_RESPONSE, self_id@, initiation.peer_id@);
            let body = written.unwrap()@;
            assert(h.len() == 12);
            assert(m@.subrange(0, 12) =~= h);
            let n = m@.len() - 2 * MAC_LEN;
            assert(m@.subrange(0, n) =~= h + body);
            assert(m@.subrange(n, n + MAC_LEN) =~= spec_mac1(initiation.peer_pubkey@, h + body));
        }
    }
    r
}

/// What `process_response` returns once MAC1 has passed and the Noise state
/// has answered.
pub fn finish_process_response(payload: Result<Vec<u8>, NoiseError>, peer_id: Id) -> (r: Result<
    Id,
    HandshakeError,
>)
    ensures
        match payload {
            Err(e) => r == Err::<Id, HandshakeError>(HandshakeError::Noise(e)),
            Ok(p) => if p@.len() == 0 {
                r == Ok::<Id, HandshakeError>(peer_id)
            } else {
                r == Err::<Id, HandshakeError>(HandshakeError::BadPayload)
            },
        },
{
    match payload {
        Err(e) => Err(HandshakeError::Noise(e)),
        Ok(p) => if p.len() == 0 {
            Ok(peer_id)
        } else {
            Err(HandshakeError::BadPayload)
        },
    }
}

/// Take a handshake response apart and complete the handshake.
///
/// A message shorter than its 76 bytes up to MAC1 is refused, then one whose
/// MAC1 is not the one our public key calls for; the Noise state is left
/// alone by both. Then the Noise state is given the 48 bytes after the
/// indices to read. On success the responder's index is returned and the
/// state is established.
pub fn process_response(info: &WgInfo, hs: &mut HS, bytes: &[u8]) -> (r: Result<Id, HandshakeError>)
    ensures
        final(hs).spec_is_initiator() == old(hs).spec_is_initiator(),
        (r matches Err(x) && x == HandshakeError::TooShort) <==> bytes@.len() < RESPONSE_BODY_LEN
            + MAC_LEN,
        (r matches Err(x) && x == HandshakeError::Mac1) <==> bytes@.len() >= RESPONSE_BODY_LEN
            + MAC_LEN && !spec_mac1_valid(info.pubkey@, bytes@, RESPONSE_BODY_LEN as int),
        r matches Err(x) && (x == HandshakeError::TooShort || x == HandshakeError::Mac1) ==> final(hs).same_as(old(hs)),
        bytes@.len() >= RESPONSE_BODY_LEN + MAC_LEN && spec_mac1_valid(
            info.pubkey@,
            bytes@,
            RESPONSE_BODY_LEN as int,
        ) ==> {
            &&& old(hs).spec_failed() ==> r == Err::<Id, HandshakeError>(
                HandshakeError::Noise(NoiseError::Failed),
            ) && final(hs).same_as(old(hs))
            &&& !old(hs).spec_failed() && !old(hs).our_turn_to_read() ==> r == Err::<
                Id,
                HandshakeError,
            >(HandshakeError::Noise(NoiseError::OutOfTurn)) && final(hs).same_as(old(hs))
            &&& old(hs).our_turn_to_read() && old(hs).spec_messages() == 1 ==> {
                &&& final(hs).spec_messages() == 2
                &&& final(hs).fed() == (Fed {
                    read: old(hs).fed().read.push(bytes@.subrange(12, RESPONSE_BODY_LEN as int)),
                    ..old(hs).fed()
                })
                &&& final(hs).established() == (old(hs).established() || r.is_ok())
                &&& final(hs).spec_failed() == r.is_err()
                &&& r matches Err(e) ==> spec_refused_by_noise(e)
            }
        },
        r matches Ok(id) ==> {
            &&& id@ == bytes@.subrange(4, 8)
            &&& old(hs).our_turn_to_read()
            &&& final(hs).spec_messages() == old(hs).spec_messages() + 1
            &&& old(hs).spec_messages() == 1 ==> final(hs).established()
        },
{
    if bytes.len() < RESPONSE_BODY_LEN + MAC_LEN {
        return Err(HandshakeError::TooShort);
    }
    if !verify_mac1(&info.pubkey, bytes, RESPONSE_BODY_LEN) {
        return Err(HandshakeError::Mac1);
    }
    let peer_id = Id::from_slice(slice_subrange(bytes, 4, 8));
    let payload = hs.read_message(slice_subrange(bytes, 12, RESPONSE_BODY_LEN));
    finish_process_response(payload, peer_id)
}

} // verus!

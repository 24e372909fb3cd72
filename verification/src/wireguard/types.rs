//! Common types and protocol constants.
use noise_protocol::{U8Array, DH};
use noise_sodiumoxide::X25519;
use sodiumoxide::randombytes::randombytes_into;
use vstd::prelude::*;
use vstd::std_specs::cmp::PartialEqSpec;

verus! {

/// Messages after which a session asks for a new key: 2^64 - 2^16 - 1.
pub const REKEY_AFTER_MESSAGES: u64 = 0xfffffffffffeffff;

/// Messages after which a session refuses to send or receive: 2^64 - 2^4 - 1.
pub const REJECT_AFTER_MESSAGES: u64 = 0xffffffffffffffef;

/// Seconds after which an initiator asks for a new key.
pub const REKEY_AFTER_TIME: u64 = 120;

/// Seconds after which a session refuses to receive.
pub const REJECT_AFTER_TIME: u64 = 180;

/// Seconds over which one handshake attempt keeps retrying.
pub const REKEY_ATTEMPT_TIME: u64 = 90;

/// Seconds to wait for a handshake response before sending again.
pub const REKEY_TIMEOUT: u64 = 5;

/// Seconds of our silence after which a received packet is acknowledged.
pub const KEEPALIVE_TIMEOUT: u64 = 10;

/// Nanoseconds in a second. Every point in time in this crate is a count of
/// nanoseconds on a monotonic clock whose origin the caller chooses.
pub const NANOS_PER_SEC: u64 = 1_000_000_000;

/// Nanoseconds in `secs` seconds.
pub open spec fn spec_seconds(secs: u64) -> int {
    secs * NANOS_PER_SEC
}

/// Nanoseconds in `secs` seconds, for spans of at most a century.
pub fn seconds(secs: u64) -> (r: u64)
    requires
        secs <= 4_000_000_000,
    ensures
        r == spec_seconds(secs),
{
    secs * NANOS_PER_SEC
}

/// Time from `since` to `now`; zero where `now` is the earlier.
pub open spec fn spec_elapsed(now: u64, since: u64) -> u64 {
    if now >= since {
        (now - since) as u64
    } else {
        0
    }
}

/// Time from `since` to `now`; zero where `now` is the earlier.
pub fn elapsed(now: u64, since: u64) -> (r: u64)
    ensures
        r == spec_elapsed(now, since),
{
    if now >= since {
        now - since
    } else {
        0
    }
}

/// An inner or outer IP address, as the number its bytes spell in network order.
#[derive(Debug, Copy, Clone, PartialEq, Eq, Structural)]
pub enum IpAddress {
    V4(u32),
    V6(u128),
}

/// A UDP address: where a peer is reached.
#[derive(Debug, Copy, Clone, PartialEq, Eq, Structural)]
pub struct Endpoint {
    pub ip: IpAddress,
    pub port: u16,
    /// Flow label of an IPv6 socket address; zero for IPv4.
    pub flowinfo: u32,
    /// Scope of an IPv6 socket address; zero for IPv4.
    pub scope_id: u32,
}

/// Width in bits of the addresses of one family.
pub open spec fn spec_address_bits(a: IpAddress) -> u32 {
    match a {
        IpAddress::V4(_) => 32,
        IpAddress::V6(_) => 128,
    }
}

/// Width in bits of the addresses of one family.
pub fn address_bits(a: IpAddress) -> (r: u32)
    ensures
        r == spec_address_bits(a),
{
    match a {
        IpAddress::V4(_) => 32,
        IpAddress::V6(_) => 128,
    }
}

/// Config info about a WireGuard peer.
#[derive(Clone)]
pub struct PeerInfo {
    pub peer_pubkey: [u8; 32],
    pub endpoint: Option<Endpoint>,
    pub allowed_ips: Vec<(IpAddress, u32)>,
}

impl PeerInfo {
    /// Every allowed-IP prefix is no longer than an address of its family.
    pub open spec fn wf(&self) -> bool {
        forall|i: int|
            0 <= i < self.allowed_ips@.len() ==> (#[trigger] self.allowed_ips@[i]).1
                <= spec_address_bits(self.allowed_ips@[i].0)
    }
}

/// The Curve25519 public key that belongs to a secret key.
pub uninterp spec fn x25519_public(key: Seq<u8>) -> Seq<u8>;

/// Trusted: `<noise_sodiumoxide::X25519 as noise_protocol::DH>::pubkey`, the
/// scalar multiplication of the base point by `key`. The result is a function
/// of the key alone.
#[verifier::external_body]
pub(crate) fn x25519_pubkey(key: &[u8; 32]) -> (pk: [u8; 32])
    ensures
        pk@ == x25519_public(key@),
{
    <X25519 as DH>::pubkey(&<X25519 as DH>::Key::from_slice(key))
}

/// Config info about a WireGuard interface.
#[derive(Clone)]
pub struct WgInfo {
    pub psk: Option<[u8; 32]>,
    pub key: [u8; 32],
    pub pubkey: [u8; 32],
}

impl WgInfo {
    /// The public key is the one that belongs to the secret key.
    pub open spec fn wf(&self) -> bool {
        self.pubkey@ == x25519_public(self.key@)
    }

    /// Interface info for a static secret, with its public key worked out.
    pub fn new(psk: Option<[u8; 32]>, key: [u8; 32]) -> (r: WgInfo)
        ensures
            r.psk == psk,
            r.key == key,
            r.wf(),
    {
        let pk = x25519_pubkey(&key);
        WgInfo { psk: psk, key: key, pubkey: pk }
    }
}

/// Sender index or receiver index: four bytes picked by the receiver.
#[derive(Debug, Copy, Clone, Eq, Ord, PartialOrd, Hash)]
pub struct Id(pub [u8; 4]);

impl View for Id {
    type V = Seq<u8>;

    open spec fn view(&self) -> Seq<u8> {
        self.0@
    }
}

impl PartialEq for Id {
    fn eq(&self, other: &Id) -> (r: bool) {
        self.0[0] == other.0[0] && self.0[1] == other.0[1] && self.0[2] == other.0[2]
            && self.0[3] == other.0[3]
    }
}

impl vstd::std_specs::cmp::PartialEqSpecImpl for Id {
    open spec fn obeys_eq_spec() -> bool {
        true
    }

    open spec fn eq_spec(&self, other: &Id) -> bool {
        self.0[0] == other.0[0] && self.0[1] == other.0[1] && self.0[2] == other.0[2]
            && self.0[3] == other.0[3]
    }
}

/// Trusted: `sodiumoxide::randombytes::randombytes_into` on a buffer of `N`
/// bytes. The bytes are random, so nothing is promised of them.
#[verifier::external_body]
pub(crate) fn random_bytes<const N: usize>() -> (r: [u8; N]) {
    let mut bytes = [0u8; N];
    randombytes_into(&mut bytes);
    bytes
}

impl Id {
    /// The index as a number: its bytes read in little-endian order.
    pub open spec fn spec_key(&self) -> u32 {
        (self.0[0] as u32 + self.0[1] as u32 * 0x100 + self.0[2] as u32 * 0x1_0000 + self.0[3] as u32
            * 0x100_0000) as u32
    }

    /// The number that four bytes make as an index.
    pub open spec fn spec_key_of(s: Seq<u8>) -> u32 {
        (s[0] as u32 + s[1] as u32 * 0x100 + s[2] as u32 * 0x1_0000 + s[3] as u32 * 0x100_0000) as u32
    }

    /// Two indices are the same value exactly when their bytes agree.
    pub proof fn lemma_eq(a: Id, b: Id)
        ensures
            (a == b) <==> (a@ == b@),
            (a == b) <==> a.eq_spec(&b),
            (a == b) <==> (a.spec_key() == b.spec_key()),
    {
        if a@ == b@ {
            assert(a.0@ =~= b.0@);
            assert(a.0 == b.0);
        }
        if a.eq_spec(&b) {
            assert(a.0@ =~= b.0@);
        }
    }

    /// Whether two indices are the same.
    pub fn same(&self, other: &Id) -> (r: bool)
        ensures
            r == (*self == *other),
    {
        proof {
            Id::lemma_eq(*self, *other);
        }
        self.key() == other.key()
    }

    /// Generate a new random ID.
    pub fn gen() -> Id {
        Id(random_bytes::<4>())
    }

    /// Create Id from a slice, which must be four bytes long.
    pub fn from_slice(id: &[u8]) -> (r: Id)
        requires
            id@.len() == 4,
        ensures
            r@ == id@,
            r.spec_key() == Id::spec_key_of(id@),
    {
        let r = Id([id[0], id[1], id[2], id[3]]);
        assert(r@ =~= id@);
        r
    }

    /// The four bytes.
    pub fn as_slice(&self) -> (r: &[u8])
        ensures
            r@ == self@,
    {
        self.0.as_slice()
    }

    /// The index as a number, for use as a map key.
    pub fn key(&self) -> (k: u32)
        ensures
            k == self.spec_key(),
    {
        let b0: u32 = self.0[0] as u32;
        let b1: u32 = self.0[1] as u32;
        let b2: u32 = self.0[2] as u32;
        let b3: u32 = self.0[3] as u32;
        b0 + b1 * 0x100 + b2 * 0x1_0000 + b3 * 0x100_0000
    }
}

} // verus!

//! The state of a whole interface, and what it does with each packet and
//! each tick of the clock. Nothing here touches a socket or a device: every
//! function takes what arrived and the time, and says what to send or write.
use crate::wireguard::cookie::{
    cookie_sign, process_cookie_reply, spec_cookie_sign, spec_process_cookie_reply, Cookie,
};
use crate::wireguard::handshake::{
    bytes_eq, initiate, process_initiation, process_response, responde, spec_header, spec_initiation,
    spec_initiation_state, spec_mac1_valid, spec_refused_by_noise,
    HandshakeError, Initiation, Timestamp, INITIATION_BODY_LEN, INITIATION_LEN, MAC_LEN,
    RESPONSE_BODY_LEN, RESPONSE_LEN, TYPE_COOKIE_REPLY, TYPE_INITIATION, TYPE_RESPONSE, TYPE_TRANSPORT,
};
use crate::wireguard::ip::{parse_ip_packet, spec_parse_ip_packet};
use crate::wireguard::noise::{NoiseError, HS};
use crate::wireguard::peer::{other_slot, spec_timestamp_accepted, Handshake, PeerState, Slot};
use crate::wireguard::routing::{is_best, spec_address_key, spec_lookup, IpLookupTable, Route};
use crate::wireguard::noise::chacha20poly1305_seal;
use crate::wireguard::transport::{is_transport_packet, spec_open, Transport, TransportError, OVERHEAD};
use crate::wireguard::types::{
    elapsed, seconds, spec_address_bits, spec_elapsed, spec_seconds, Endpoint, Id, IpAddress, PeerInfo,
    WgInfo, REJECT_AFTER_MESSAGES, REKEY_ATTEMPT_TIME, REKEY_TIMEOUT,
};
use std::collections::HashMap;
use vstd::prelude::*;
use vstd::std_specs::hash::spec_keys_iter;
use vstd::std_specs::iter::IteratorSpec;
use vstd::slice::slice_subrange;

verus! {

/// Why a packet, or a wish to send one, came to nothing.
#[derive(Debug, Copy, Clone, PartialEq, Eq, Structural)]
pub enum Dropped {
    /// A datagram too short to name its kind and index.
    TooShort,
    /// A datagram of no known kind.
    UnknownType,
    /// A handshake initiation that is not 148 bytes long.
    BadLength,
    /// A handshake message that was refused.
    Handshake(HandshakeError),
    /// An initiation from a static key that belongs to no peer.
    UnknownPeer,
    /// An initiation whose timestamp is not later than the last accepted.
    StaleTimestamp,
    /// A message for an index that the index map does not hold.
    UnknownId,
    /// A response or cookie reply where no handshake of that index waits.
    NoHandshake,
    /// A transport message for an index that its peer no longer uses.
    NoSession,
    /// A transport message that was refused.
    Transport(TransportError),
    /// An inner packet that is neither IPv4 nor IPv6.
    NotIp,
    /// An inner packet whose source does not route back to its sender.
    ReversePath,
    /// An inner packet for which no peer is allowed.
    NoRoute,
    /// A peer whose address is not known.
    NoEndpoint,
    /// A packet for a peer whose handshake is still under way.
    HandshakeInProgress,
    /// A cookie reply that did not authenticate.
    Cookie,
}

/// What is to be done after a packet or a tick was handled.
pub enum Reaction {
    /// Nothing.
    Dropped(Dropped),
    /// State was updated; nothing is to be sent or written.
    Done,
    /// Send a datagram.
    Send { packet: Vec<u8>, to: Endpoint },
    /// Write an inner packet to the device.
    WriteTun { packet: Vec<u8> },
}

/// A reaction with its packet as a sequence of bytes.
pub enum ReactionView {
    Dropped(Dropped),
    Done,
    Send { packet: Seq<u8>, to: Endpoint },
    WriteTun { packet: Seq<u8> },
}

impl View for Reaction {
    type V = ReactionView;

    open spec fn view(&self) -> ReactionView {
        match *self {
            Reaction::Dropped(d) => ReactionView::Dropped(d),
            Reaction::Done => ReactionView::Done,
            Reaction::Send { packet, to } => ReactionView::Send { packet: packet@, to },
            Reaction::WriteTun { packet } => ReactionView::WriteTun { packet: packet@ },
        }
    }
}

/// A datagram to send.
pub struct Datagram {
    pub packet: Vec<u8>,
    pub to: Endpoint,
}

/// The routes that the allowed IPs of one peer make, in their order, for the
/// family of width `bits`.
pub open spec fn spec_peer_routes(ips: Seq<(IpAddress, u32)>, bits: u32, peer: usize) -> Seq<Route>
    decreases ips.len(),
{
    if ips.len() == 0 {
        Seq::empty()
    } else {
        let front = spec_peer_routes(ips.drop_last(), bits, peer);
        let (a, m) = ips.last();
        if spec_address_bits(a) == bits {
            front.push(Route { addr: spec_address_key(a), masklen: m, value: peer })
        } else {
            front
        }
    }
}

/// The routes that the allowed IPs of all peers make, peer after peer.
pub open spec fn spec_routes(peers: Seq<PeerInfo>, bits: u32) -> Seq<Route>
    decreases peers.len(),
{
    if peers.len() == 0 {
        Seq::empty()
    } else {
        spec_routes(peers.drop_last(), bits) + spec_peer_routes(
            peers.last().allowed_ips@,
            bits,
            (peers.len() - 1) as usize,
        )
    }
}

/// The peer that holds `pubkey`: of several, the last.
pub open spec fn spec_find_peer(peers: Seq<PeerState>, pubkey: Seq<u8>) -> Option<usize>
    decreases peers.len(),
{
    if peers.len() == 0 {
        None
    } else if peers.last().info.peer_pubkey@ == pubkey {
        Some((peers.len() - 1) as usize)
    } else {
        spec_find_peer(peers.drop_last(), pubkey)
    }
}

/// The state of an interface: its keys, its peers, the map from session
/// indices to peers, and the routes from inner addresses to peers. Peers are
/// named by their place in the list that the interface was made from.
pub struct WgState {
    info: WgInfo,
    peers: Vec<PeerState>,
    // Care must be taken to keep this in sync with the peers.
    id_map: HashMap<u32, usize>,
    rt4: IpLookupTable,
    rt6: IpLookupTable,
}

impl WgState {
    /// The interface's keys.
    pub closed spec fn info(&self) -> WgInfo {
        self.info
    }

    /// The peers.
    pub closed spec fn peers(&self) -> Seq<PeerState> {
        self.peers@
    }

    /// The map from session indices, as numbers, to peers.
    pub closed spec fn id_map(&self) -> Map<u32, usize> {
        self.id_map@
    }

    /// The IPv4 routes.
    pub closed spec fn routes4(&self) -> Seq<Route> {
        self.rt4.routes()
    }

    /// The IPv6 routes.
    pub closed spec fn routes6(&self) -> Seq<Route> {
        self.rt6.routes()
    }

    /// The peer that an inner address routes to.
    pub open spec fn spec_route(&self, a: IpAddress) -> Option<usize> {
        match a {
            IpAddress::V4(x) => spec_lookup(self.routes4(), 32, x as u128),
            IpAddress::V6(x) => spec_lookup(self.routes6(), 128, x),
        }
    }

    /// Every route and every entry of the index map names a peer that exists.
    pub closed spec fn wf(&self) -> bool {
        &&& self.info.wf()
        &&& self.rt4.wf()
        &&& self.rt4.bits() == 32
        &&& self.rt6.wf()
        &&& self.rt6.bits() == 128
        &&& forall|i: int|
            0 <= i < self.rt4.routes().len() ==> (#[trigger] self.rt4.routes()[i]).value
                < self.peers@.len()
        &&& forall|i: int|
            0 <= i < self.rt6.routes().len() ==> (#[trigger] self.rt6.routes()[i]).value
                < self.peers@.len()
        &&& forall|k: u32| #[trigger]
            self.id_map@.contains_key(k) ==> self.id_map@[k] < self.peers@.len()
    }

    /// Every index that a peer's handshake or sessions go by is in the index
    /// map and leads back to that peer.
    pub open spec fn ids_claimed(&self) -> bool {
        forall|i: int, k: u32|
            0 <= i < self.peers().len() && #[trigger] self.peers()[i].has_key(k)
                ==> self.id_map().contains_key(k) && self.id_map()[k] == i
    }

    /// Every entry of the index map leads to a peer that goes by its index.
    pub open spec fn no_leaks(&self) -> bool {
        forall|k: u32| #[trigger]
            self.id_map().contains_key(k) ==> 0 <= self.id_map()[k] < self.peers().len()
                && self.peers()[self.id_map()[k] as int].has_key(k)
    }

    /// Within each peer the handshake and the sessions go by different indices.
    pub open spec fn distinct_ids(&self) -> bool {
        forall|i: int| 0 <= i < self.peers().len() ==> (#[trigger] self.peers()[i]).distinct_keys()
    }

    /// The index map and the peers agree in both directions, and no peer
    /// uses an index twice.
    pub open spec fn consistent(&self) -> bool {
        self.ids_claimed() && self.no_leaks() && self.distinct_ids()
    }

    /// The number of peers.
    pub fn peer_count(&self) -> (n: usize)
        ensures
            n == self.peers().len(),
    {
        self.peers.len()
    }

    /// The state of peer `i`.
    pub fn peer(&self, i: usize) -> (p: &PeerState)
        requires
            i < self.peers().len(),
        ensures
            *p == self.peers()[i as int],
    {
        &self.peers[i]
    }

    /// The peer that index `id` leads to.
    pub fn peer_by_id(&self, id: Id) -> (r: Option<usize>)
        requires
            self.wf(),
        ensures
            r.is_some() == self.id_map().contains_key(id.spec_key()),
            r matches Some(i) ==> i == self.id_map()[id.spec_key()] && i < self.peers().len(),
    {
        broadcast use vstd::std_specs::hash::group_hash_axioms;

        let k: u32 = id.key();
        match self.id_map.get(&k) {
            Some(i) => Some(*i),
            None => None,
        }
    }
}


/// A copy of a peer's configuration.
pub fn copy_peer_info(p: &PeerInfo) -> (r: PeerInfo)
    ensures
        r.peer_pubkey == p.peer_pubkey,
        r.endpoint == p.endpoint,
        r.allowed_ips@ == p.allowed_ips@,
{
    let mut ips: Vec<(IpAddress, u32)> = Vec::new();
    let mut j: usize = 0;
    while j < p.allowed_ips.len()
        invariant
            j <= p.allowed_ips@.len(),
            ips@ == p.allowed_ips@.take(j as int),
        decreases p.allowed_ips@.len() - j,
    {
        ips.push(p.allowed_ips[j]);
        assert(ips@ =~= p.allowed_ips@.take(j + 1));
        j = j + 1;
    }
    assert(p.allowed_ips@.take(j as int) =~= p.allowed_ips@);
    PeerInfo { peer_pubkey: p.peer_pubkey, endpoint: p.endpoint, allowed_ips: ips }
}

/// A peer as it is when an interface is made: configured, with no session.
pub open spec fn spec_fresh_peer(p: PeerState, info: PeerInfo) -> bool {
    &&& p.info.peer_pubkey == info.peer_pubkey
    &&& p.info.endpoint == info.endpoint
    &&& p.info.allowed_ips@ == info.allowed_ips@
    &&& p.last_handshake.is_none()
    &&& p.cookie.is_none()
    &&& p.last_mac1.is_none()
    &&& p.handshake.is_none()
    &&& p.primary_transport.is_none()
    &&& p.secondary_transport.is_none()
}

impl WgState {
    /// An interface with the given keys and peers: no session, an empty
    /// index map, and a route for each allowed IP of each peer, in the order
    /// of the list.
    pub fn new(info: WgInfo, peers: &[PeerInfo]) -> (wg: WgState)
        requires
            info.wf(),
            forall|i: int| 0 <= i < peers@.len() ==> (#[trigger] peers@[i]).wf(),
        ensures
            wg.wf(),
            wg.consistent(),
            wg.info() == info,
            wg.peers().len() == peers@.len(),
            forall|i: int|
                0 <= i < peers@.len() ==> spec_fresh_peer(#[trigger] wg.peers()[i], peers@[i]),
            wg.id_map() == Map::<u32, usize>::empty(),
            wg.routes4() == spec_routes(peers@, 32),
            wg.routes6() == spec_routes(peers@, 128),
    {
        let mut states: Vec<PeerState> = Vec::new();
        let mut rt4 = IpLookupTable::new(32);
        let mut rt6 = IpLookupTable::new(128);
        let mut i: usize = 0;
        while i < peers.len()
            invariant
                i <= peers@.len(),
                forall|n: int| 0 <= n < peers@.len() ==> (#[trigger] peers@[n]).wf(),
                states@.len() == i,
                forall|n: int| 0 <= n < i ==> spec_fresh_peer(#[trigger] states@[n], peers@[n]),
                rt4.wf(),
                rt4.bits() == 32,
                rt6.wf(),
                rt6.bits() == 128,
                rt4.routes() == spec_routes(peers@.take(i as int), 32),
                rt6.routes() == spec_routes(peers@.take(i as int), 128),
                forall|n: int| 0 <= n < rt4.routes().len() ==> (#[trigger] rt4.routes()[n]).value < i,
                forall|n: int| 0 <= n < rt6.routes().len() ==> (#[trigger] rt6.routes()[n]).value < i,
            decreases peers@.len() - i,
        {
            let p = &peers[i];
            let ghost ips = p.allowed_ips@;
            let ghost base4 = rt4.routes();
            let ghost base6 = rt6.routes();
            let mut j: usize = 0;
            assert(peers@[i as int].wf());
            while j < p.allowed_ips.len()
                invariant
                    j <= ips.len(),
                    ips == p.allowed_ips@,
                    p.wf(),
                    rt4.wf(),
                    rt4.bits() == 32,
                    rt6.wf(),
                    rt6.bits() == 128,
                    rt4.routes() == base4 + spec_peer_routes(ips.take(j as int), 32, i),
                    rt6.routes() == base6 + spec_peer_routes(ips.take(j as int), 128, i),
                    forall|n: int|
                        0 <= n < rt4.routes().len() ==> (#[trigger] rt4.routes()[n]).value <= i,
                    forall|n: int|
                        0 <= n < rt6.routes().len() ==> (#[trigger] rt6.routes()[n]).value <= i,
                decreases ips.len() - j,
            {
                let (a, prefix) = p.allowed_ips[j];
                proof {
                    let next = ips.take(j + 1);
                    assert(next.drop_last() =~= ips.take(j as int));
                    assert(next.last() == ips[j as int]);
                    assert(ips[j as int] == (a, prefix));
                }
                let ghost before4 = rt4.routes();
                let ghost before6 = rt6.routes();
                match a {
                    IpAddress::V4(x) => {
                        rt4.insert(x as u128, prefix, i);
                        assert(rt4.routes() =~= base4 + spec_peer_routes(ips.take(j + 1), 32, i));
                        assert(rt6.routes() =~= base6 + spec_peer_routes(ips.take(j + 1), 128, i));
                    },
                    IpAddress::V6(x) => {
                        rt6.insert(x, prefix, i);
                        assert(rt4.routes() =~= base4 + spec_peer_routes(ips.take(j + 1), 32, i));
                        assert(rt6.routes() =~= base6 + spec_peer_routes(ips.take(j + 1), 128, i));
                    },
                }
                j = j + 1;
            }
            proof {
                assert(ips.take(j as int) =~= ips);
                let next = peers@.take(i + 1);
                assert(next.drop_last() =~= peers@.take(i as int));
                assert(next.last() == peers@[i as int]);
            }
            states.push(PeerState::new(copy_peer_info(p)));
            i = i + 1;
        }
        proof {
            assert(peers@.take(i as int) =~= peers@);
        }
        let wg = WgState { info: info, peers: states, id_map: HashMap::new(), rt4: rt4, rt6: rt6 };
        proof {
            broadcast use vstd::std_specs::hash::group_hash_axioms;

            assert(wg.id_map@ =~= Map::<u32, usize>::empty());
        }
        wg
    }

    /// The peer that an inner address routes to.
    pub fn route(&self, a: IpAddress) -> (r: Option<usize>)
        requires
            self.wf(),
        ensures
            r == self.spec_route(a),
            r matches Some(i) ==> i < self.peers().len(),
    {
        let r = match a {
            IpAddress::V4(x) => self.rt4.longest_match(x as u128),
            IpAddress::V6(x) => self.rt6.longest_match(x),
        };
        proof {
            if r.is_some() {
                match a {
                    IpAddress::V4(x) => {
                        let k = choose|k: int| #[trigger] is_best(self.rt4.routes(), 32, x as u128, k);
                        assert(self.rt4.routes()[k].value < self.peers@.len());
                    },
                    IpAddress::V6(x) => {
                        let k = choose|k: int| #[trigger] is_best(self.rt6.routes(), 128, x, k);
                        assert(self.rt6.routes()[k].value < self.peers@.len());
                    },
                }
            }
        }
        r
    }

    /// The peer that holds the static public key `pubkey`: of several, the
    /// last in the list.
    pub fn find_peer(&self, pubkey: &[u8; 32]) -> (r: Option<usize>)
        ensures
            r == spec_find_peer(self.peers(), pubkey@),
            r matches Some(i) ==> i < self.peers().len() && self.peers()[i as int].info.peer_pubkey@
                == pubkey@,
    {
        let mut i: usize = self.peers.len();
        assert(self.peers@.take(i as int) =~= self.peers@);
        while i > 0
            invariant
                i <= self.peers@.len(),
                spec_find_peer(self.peers@, pubkey@) == spec_find_peer(self.peers@.take(i as int), pubkey@),
            decreases i,
        {
            i = i - 1;
            proof {
                let cur = self.peers@.take(i + 1);
                assert(cur.drop_last() =~= self.peers@.take(i as int));
                assert(cur.last() == self.peers@[i as int]);
            }
            if bytes_eq(self.peers[i].info.peer_pubkey.as_slice(), pubkey.as_slice()) {
                return Some(i);
            }
        }
        None
    }
}


/// The first `n` elements of `s`, or all of it where it has fewer.
pub open spec fn spec_truncate(s: Seq<u8>, n: int) -> Seq<u8> {
    if n < s.len() {
        s.take(n)
    } else {
        s
    }
}

impl WgState {
    /// Keys, routes and the number of peers are the same.
    pub open spec fn same_config(&self, before: &WgState) -> bool {
        &&& self.info() == before.info()
        &&& self.routes4() == before.routes4()
        &&& self.routes6() == before.routes6()
        &&& self.peers().len() == before.peers().len()
    }

    /// Nothing is changed.
    pub open spec fn unchanged(&self, before: &WgState) -> bool {
        &&& self.same_config(before)
        &&& self.peers() == before.peers()
        &&& self.id_map() == before.id_map()
    }

    /// Every peer but `i` is the same.
    pub open spec fn only_peer_changed(&self, before: &WgState, i: int) -> bool {
        &&& self.same_config(before)
        &&& forall|j: int|
            0 <= j < self.peers().len() && j != i ==> #[trigger] self.peers()[j] == before.peers()[j]
    }

    /// The peer and the place of the session that a transport message is
    /// for: its receiver index is in the index map, and the peer that it
    /// leads to has a session that goes by it.
    pub open spec fn spec_session_of(&self, p: Seq<u8>) -> Option<(usize, Slot)> {
        if p.len() < 8 {
            None
        } else {
            let k = Id::spec_key_of(p.subrange(4, 8));
            if !self.id_map().contains_key(k) {
                None
            } else {
                let i = self.id_map()[k];
                match self.peers()[i as int].spec_slot_key(k) {
                    None => None,
                    Some(s) => Some((i, s)),
                }
            }
        }
    }

    /// The peer whose session a transport message authenticates under at
    /// `now`, with the place of that session and the plaintext.
    pub open spec fn spec_authentic(&self, p: Seq<u8>, now: u64) -> Option<(usize, Slot, Seq<u8>)> {
        match self.spec_session_of(p) {
            None => None,
            Some((i, s)) => match self.peers()[i as int].transport(s).unwrap().spec_decrypt(p, now) {
                Err(_) => None,
                Ok(pkt) => Some((i, s, pkt)),
            },
        }
    }

    /// What becomes of a transport message at `now`.
    pub open spec fn spec_transport_reaction(&self, p: Seq<u8>, now: u64) -> ReactionView {
        if p.len() < 8 {
            ReactionView::Dropped(Dropped::TooShort)
        } else if !self.id_map().contains_key(Id::spec_key_of(p.subrange(4, 8))) {
            ReactionView::Dropped(Dropped::UnknownId)
        } else {
            match self.spec_session_of(p) {
                None => ReactionView::Dropped(Dropped::NoSession),
                Some((i, s)) => match self.peers()[i as int].transport(s).unwrap().spec_decrypt(
                    p,
                    now,
                ) {
                    Err(e) => ReactionView::Dropped(Dropped::Transport(e)),
                    Ok(pkt) => match spec_parse_ip_packet(pkt) {
                        None => ReactionView::Dropped(Dropped::NotIp),
                        Some(h) => if self.spec_route(h.src) == Some(i) {
                            ReactionView::WriteTun { packet: spec_truncate(pkt, h.len as int) }
                        } else {
                            ReactionView::Dropped(Dropped::ReversePath)
                        },
                    },
                },
            }
        }
    }

    /// What becomes of the plaintext of a transport message that peer `i`
    /// sent: it is written to the device, cut to the length that its IP
    /// header gives, where its source address routes back to `i`.
    pub open spec fn spec_deliver(&self, pkt: Seq<u8>, i: usize) -> ReactionView {
        match spec_parse_ip_packet(pkt) {
            None => ReactionView::Dropped(Dropped::NotIp),
            Some(h) => if self.spec_route(h.src) == Some(i) {
                ReactionView::WriteTun { packet: spec_truncate(pkt, h.len as int) }
            } else {
                ReactionView::Dropped(Dropped::ReversePath)
            },
        }
    }

    /// Reverse-path filter: decide what becomes of the plaintext of a
    /// transport message that peer `i` sent.
    pub fn deliver(&self, pkt: Vec<u8>, i: usize) -> (r: Reaction)
        requires
            self.wf(),
        ensures
            r@ == self.spec_deliver(pkt@, i),
    {
        let mut pkt = pkt;
        match parse_ip_packet(pkt.as_slice()) {
            Err(_) => Reaction::Dropped(Dropped::NotIp),
            Ok(h) => {
                let back = match self.route(h.src) {
                    Some(j) => j == i,
                    None => false,
                };
                if back {
                    let ghost whole = pkt@;
                    pkt.truncate(h.len as usize);
                    assert(pkt@ =~= spec_truncate(whole, h.len as int));
                    Reaction::WriteTun { packet: pkt }
                } else {
                    Reaction::Dropped(Dropped::ReversePath)
                }
            },
        }
    }

    /// Make `addr` the endpoint of peer `i`. Where it is that already,
    /// nothing is written.
    pub fn set_endpoint(&mut self, i: usize, addr: Endpoint)
        requires
            old(self).wf(),
            i < old(self).peers().len(),
        ensures
            final(self).wf(),
            final(self).id_map() == old(self).id_map(),
            final(self).only_peer_changed(old(self), i as int),
            final(self).peers()[i as int].info.endpoint == Some(addr),
            old(self).peers()[i as int].info.endpoint == Some(addr) ==> final(self).peers() == old(self).peers(),
            final(self).peers()[i as int] == (PeerState {
                info: final(self).peers()[i as int].info,
                ..old(self).peers()[i as int]
            }),
            final(self).peers()[i as int].info.peer_pubkey == old(self).peers()[i as int].info.peer_pubkey,
            final(self).peers()[i as int].info.allowed_ips == old(self).peers()[i as int].info.allowed_ips,
    {
        let known = match self.peers[i].info.endpoint {
            Some(e) => e == addr,
            None => false,
        };
        if !known {
            self.peers[i].info.endpoint = Some(addr);
        } else {
            assert(self.peers@ =~= old(self).peers@);
        }
    }

    /// Handle a transport message that came from `addr`.
    ///
    /// The session is found by the receiver index, among the primary and the
    /// secondary one of the peer that the index map names. A message that it
    /// does not authenticate changes nothing. One that it does makes `addr`
    /// the peer's endpoint, and its plaintext, cut to the length that its IP
    /// header gives, is to be written to the device where its inner source
    /// address routes back to that same peer; otherwise it is dropped.
    pub fn udp_get_transport(&mut self, p: &[u8], addr: Endpoint, now: u64) -> (r: Reaction)
        requires
            old(self).wf(),
        ensures
            final(self).wf(),
            old(self).transport_outcome(final(self), p@, addr, now, r@),
    {
        if p.len() < 8 {
            return Reaction::Dropped(Dropped::TooShort);
        }
        let id = Id::from_slice(slice_subrange(p, 4, 8));
        let i = match self.peer_by_id(id) {
            Some(i) => i,
            None => {
                return Reaction::Dropped(Dropped::UnknownId);
            },
        };
        let opened = self.peers[i].decrypt(id, p, now);
        let ghost mid = *self;
        proof {
            assert(mid.all_same_keys(old(self))) by {
                assert forall|j: int| 0 <= j < mid.peers().len() implies same_keys(
                    #[trigger] mid.peers()[j],
                    old(self).peers()[j],
                ) by {}
            }
            mid.lemma_same_keys(old(self));
        }
        match opened {
            None => {
                assert(self.peers@ =~= old(self).peers@);
                Reaction::Dropped(Dropped::NoSession)
            },
            Some(Err(e)) => {
                assert(self.peers@[i as int] == old(self).peers@[i as int]);
                assert(self.peers@ =~= old(self).peers@);
                Reaction::Dropped(Dropped::Transport(e))
            },
            Some(Ok(pkt)) => {
                let reaction = self.deliver(pkt, i);
                self.set_endpoint(i, addr);
                proof {
                    assert(self.all_same_keys(&mid)) by {
                        assert forall|j: int| 0 <= j < self.peers().len() implies same_keys(
                            #[trigger] self.peers()[j],
                            mid.peers()[j],
                        ) by {}
                    }
                    self.lemma_same_keys(&mid);
                }
                reaction
            },
        }
    }

    /// Every peer goes by the same indices as before, and the index map is
    /// the same.
    pub open spec fn all_same_keys(&self, before: &WgState) -> bool {
        &&& self.peers().len() == before.peers().len()
        &&& self.id_map() == before.id_map()
        &&& forall|j: int|
            0 <= j < self.peers().len() ==> same_keys(#[trigger] self.peers()[j], before.peers()[j])
    }

    /// Whether the peers and the index map agree depends on the indices alone.
    pub proof fn lemma_same_keys(&self, before: &WgState)
        requires
            self.all_same_keys(before),
        ensures
            before.consistent() ==> self.consistent(),
            before.ids_claimed() ==> self.ids_claimed(),
            before.no_leaks() ==> self.no_leaks(),
            before.distinct_ids() ==> self.distinct_ids(),
    {
        if before.ids_claimed() {
            assert forall|i: int, k: u32|
                0 <= i < self.peers().len() && #[trigger] self.peers()[i].has_key(
                    k,
                ) implies self.id_map().contains_key(k) && self.id_map()[k] == i by {
                assert(same_keys(self.peers()[i], before.peers()[i]));
                assert(before.peers()[i].has_key(k));
            }
        }
        if before.no_leaks() {
            assert forall|k: u32| #[trigger] self.id_map().contains_key(k) implies 0
                <= self.id_map()[k] < self.peers().len() && self.peers()[self.id_map()[k] as int].has_key(
                k,
            ) by {
                let i = self.id_map()[k] as int;
                assert(before.id_map().contains_key(k));
                assert(same_keys(self.peers()[i], before.peers()[i]));
            }
        }
        if before.distinct_ids() {
            assert forall|i: int| 0 <= i < self.peers().len() implies (
            #[trigger] self.peers()[i]).distinct_keys() by {
                assert(same_keys(self.peers()[i], before.peers()[i]));
                assert(before.peers()[i].distinct_keys());
            }
        }
    }
}

/// Two states of a peer go by the same indices.
pub open spec fn same_keys(a: PeerState, b: PeerState) -> bool {
    &&& a.handshake_key() == b.handshake_key()
    &&& a.primary_key() == b.primary_key()
    &&& a.secondary_key() == b.secondary_key()
}


impl WgState {
    /// The peers and the index map still agree after a change to peer `i`
    /// and to the entries of the index map that lead to it.
    pub proof fn lemma_consistent_update(&self, before: &WgState, i: int)
        requires
            before.consistent(),
            0 <= i < before.peers().len(),
            self.peers().len() == before.peers().len(),
            forall|j: int|
                0 <= j < self.peers().len() && j != i ==> same_keys(
                    #[trigger] self.peers()[j],
                    before.peers()[j],
                ),
            forall|k: u32| #[trigger]
                self.peers()[i].has_key(k) ==> self.id_map().contains_key(k) && self.id_map()[k] == i,
            forall|k: u32| #[trigger]
                self.id_map().contains_key(k) ==> (self.id_map()[k] == i && self.peers()[i].has_key(k))
                    || (before.id_map().contains_key(k) && before.id_map()[k] != i
                    && self.id_map()[k] == before.id_map()[k]),
            forall|k: u32| #[trigger]
                before.id_map().contains_key(k) && before.id_map()[k] != i
                    ==> self.id_map().contains_key(k) && self.id_map()[k] == before.id_map()[k],
            self.peers()[i].distinct_keys(),
        ensures
            self.consistent(),
    {
        assert forall|j: int, k: u32|
            0 <= j < self.peers().len() && #[trigger] self.peers()[j].has_key(
                k,
            ) implies self.id_map().contains_key(k) && self.id_map()[k] == j by {
            if j != i {
                assert(same_keys(self.peers()[j], before.peers()[j]));
                assert(before.peers()[j].has_key(k));
                assert(before.id_map().contains_key(k) && before.id_map()[k] == j);
            }
        }
        assert forall|k: u32| #[trigger] self.id_map().contains_key(k) implies 0 <= self.id_map()[k]
            < self.peers().len() && self.peers()[self.id_map()[k] as int].has_key(k) by {
            if !(self.id_map()[k] == i && self.peers()[i].has_key(k)) {
                let j = before.id_map()[k] as int;
                assert(before.id_map().contains_key(k));
                assert(before.peers()[j].has_key(k));
                assert(same_keys(self.peers()[j], before.peers()[j]));
            }
        }
        assert forall|j: int| 0 <= j < self.peers().len() implies (#[trigger] self.peers()[j]).distinct_keys() by {
            if j != i {
                assert(same_keys(self.peers()[j], before.peers()[j]));
                assert(before.peers()[j].distinct_keys());
            }
        }
    }

    /// The index map after a session with number `k` was installed as the
    /// primary one of peer `i`, whose secondary one went by `dropped`.
    pub open spec fn spec_rotated_map(m: Map<u32, usize>, k: u32, i: usize, dropped: Option<u32>) -> Map<
        u32,
        usize,
    > {
        match dropped {
            Some(d) => m.insert(k, i).remove(d),
            None => m.insert(k, i),
        }
    }

    /// What accepting an initiation from peer `i` at `now` leaves: the new
    /// session, which goes by `self_id`, is the primary one and the primary
    /// one the secondary, the timestamp is recorded, and the peer's endpoint
    /// is `addr`.
    pub open spec fn responded(
        &self,
        after: &WgState,
        i: int,
        timestamp: Timestamp,
        self_id: Id,
        peer_id: Id,
        addr: Endpoint,
        now: u64,
    ) -> bool {
        let p = self.peers()[i];
        let q = after.peers()[i];
        &&& 0 <= i < self.peers().len()
        &&& after.only_peer_changed(self, i)
        &&& after.id_map() == WgState::spec_rotated_map(
            self.id_map(),
            self_id.spec_key(),
            i as usize,
            p.secondary_key(),
        )
        &&& q.info.endpoint == Some(addr)
        &&& q.info.peer_pubkey == p.info.peer_pubkey
        &&& q.info.allowed_ips == p.info.allowed_ips
        &&& spec_timestamp_accepted(p.last_handshake, timestamp)
        &&& q.last_handshake == Some(timestamp)
        &&& q.cookie == p.cookie
        &&& q.last_mac1 == p.last_mac1
        &&& q.handshake == p.handshake
        &&& q.primary_transport.is_some()
        &&& q.primary_transport.unwrap().is_new(self_id, peer_id, false, now)
        &&& q.secondary_transport == p.primary_transport
    }

    /// Accept an initiation from peer `i` whose response was built: provided
    /// that its timestamp is later than the last one accepted from that
    /// peer, record the timestamp, sign the response with the peer's cookie,
    /// enter `self_id` in the index map, make the sender's address the
    /// endpoint, and rotate the new session in.
    pub fn accept_initiation(
        &mut self,
        i: usize,
        initiation: Initiation,
        self_id: Id,
        response: Vec<u8>,
        addr: Endpoint,
        now: u64,
    ) -> (r: Reaction)
        requires
            old(self).wf(),
            i < old(self).peers().len(),
            !initiation.handshake_state.spec_is_initiator(),
            initiation.handshake_state.established(),
        ensures
            final(self).wf(),
            !spec_timestamp_accepted(old(self).peers()[i as int].last_handshake, initiation.timestamp)
                ==> r@ == ReactionView::Dropped(Dropped::StaleTimestamp) && final(self).unchanged(
                old(self),
            ),
            spec_timestamp_accepted(old(self).peers()[i as int].last_handshake, initiation.timestamp)
                ==> {
                &&& r@ == (ReactionView::Send {
                    packet: spec_cookie_sign(response@, old(self).peers()[i as int].cookie, now),
                    to: addr,
                })
                &&& spec_cookie_sign(response@, old(self).peers()[i as int].cookie, now).len()
                    == response@.len()
                &&& old(self).responded(
                    final(self),
                    i as int,
                    initiation.timestamp,
                    self_id,
                    initiation.peer_id,
                    addr,
                    now,
                )
            },
            old(self).consistent() && !old(self).id_map().contains_key(self_id.spec_key())
                ==> final(self).consistent(),
    {
        broadcast use vstd::std_specs::hash::group_hash_axioms;

        // Compare timestamp.
        if !self.peers[i].accept_timestamp(initiation.timestamp) {
            assert(self.peers@ =~= old(self).peers@);
            return Reaction::Dropped(Dropped::StaleTimestamp);
        }
        let mut response = response;
        cookie_sign(&mut response, self.peers[i].cookie.as_ref(), now);
        let t = Transport::new_from_hs(self_id, initiation.peer_id, initiation.handshake_state, now);
        self.id_map.insert(self_id.key(), i);
        self.set_endpoint(i, addr);
        self.peers[i].rotate_transport(t, &mut self.id_map);
        proof {
            if old(self).consistent() && !old(self).id_map().contains_key(self_id.spec_key()) {
                let before = old(self).peers()[i as int];
                assert(before.distinct_keys());
                assert forall|k: u32| #[trigger]
                    self.peers()[i as int].has_key(k) implies self.id_map().contains_key(k)
                    && self.id_map()[k] == i by {
                    if k != self_id.spec_key() {
                        assert(before.has_key(k));
                    }
                    if let Some(d) = before.secondary_key() {
                        assert(before.has_key(d));
                    }
                }
                assert forall|k: u32| #[trigger] self.id_map().contains_key(k) implies (self.id_map()[k]
                    == i && self.peers()[i as int].has_key(k)) || (old(self).id_map().contains_key(k)
                    && old(self).id_map()[k] != i && self.id_map()[k] == old(self).id_map()[k]) by {
                    if k != self_id.spec_key() && old(self).id_map()[k] == i {
                        assert(before.has_key(k));
                    }
                }
                assert forall|k: u32| #[trigger]
                    old(self).id_map().contains_key(k) && old(self).id_map()[k]
                        != i implies self.id_map().contains_key(k) && self.id_map()[k] == old(self).id_map()[k] by {
                    if let Some(d) = before.secondary_key() {
                        assert(before.has_key(d));
                    }
                }
                if let Some(d) = before.primary_key() {
                    assert(before.has_key(d));
                }
                if let Some(d) = before.handshake_key() {
                    assert(before.has_key(d));
                }
                self.lemma_consistent_update(old(self), i as int);
            }
        }
        Reaction::Send { packet: response, to: addr }
    }

    /// The peer that an initiation is accepted for, or the reason why it is
    /// dropped: its static key belongs to no peer, or its timestamp is not
    /// later than the last one accepted from the peer that the key belongs
    /// to.
    pub fn admit_initiation(&self, initiation: &Initiation) -> (r: Result<usize, Dropped>)
        ensures
            r == (match spec_find_peer(self.peers(), initiation.peer_pubkey@) {
                None => Err::<usize, Dropped>(Dropped::UnknownPeer),
                Some(i) => if spec_timestamp_accepted(
                    self.peers()[i as int].last_handshake,
                    initiation.timestamp,
                ) {
                    Ok::<usize, Dropped>(i)
                } else {
                    Err::<usize, Dropped>(Dropped::StaleTimestamp)
                },
            }),
            r matches Ok(i) ==> i < self.peers().len(),
    {
        match self.find_peer(&initiation.peer_pubkey) {
            None => Err(Dropped::UnknownPeer),
            Some(i) => if self.peers[i].timestamp_ok(initiation.timestamp) {
                Ok(i)
            } else {
                Err(Dropped::StaleTimestamp)
            },
        }
    }

    /// Handle a handshake initiation that came from `addr`.
    ///
    /// It must be 148 bytes long and carry the MAC1 that our public key
    /// calls for; the static key in it must be that of a peer, and its
    /// timestamp later than the last one accepted from that peer. Then a
    /// response under a new random index is to be sent to `addr`, and the
    /// session that it completes becomes the peer's primary one. A message
    /// that is dropped changes nothing.
    pub fn udp_get_handshake_init(&mut self, p: &[u8], addr: Endpoint, now: u64) -> (r: Reaction)
        requires
            old(self).wf(),
        ensures
            final(self).wf(),
            old(self).handshake_init_outcome(final(self), p@, addr, now, r@),
    {
        if p.len() != INITIATION_LEN {
            return Reaction::Dropped(Dropped::BadLength);
        }
        let mut initiation = match process_initiation(&self.info, p) {
            Ok(i) => i,
            Err(e) => {
                return Reaction::Dropped(Dropped::Handshake(e));
            },
        };
        let i = match self.admit_initiation(&initiation) {
            Ok(i) => i,
            Err(why) => {
                return Reaction::Dropped(why);
            },
        };
        let self_id = Id::gen();
        let response = match responde(&self.info, &mut initiation, self_id) {
            Ok(m) => m,
            Err(e) => {
                return Reaction::Dropped(Dropped::Handshake(e));
            },
        };
        let ghost peer_id = initiation.peer_id;
        let ghost timestamp = initiation.timestamp;
        let ghost signed = spec_cookie_sign(response@, self.peers@[i as int].cookie, now);
        let ghost unsigned = response@;
        let ghost key = initiation.peer_pubkey@;
        proof {
            lemma_cookie_sign_keeps_front(response@, self.peers@[i as int].cookie, now, 12);
            lemma_cookie_sign_keeps_front(response@, self.peers@[i as int].cookie, now, 76);
        }
        let r = self.accept_initiation(i, initiation, self_id, response, addr, now);
        proof {
            assert(old(self).responded(final(self), i as int, timestamp, self_id, peer_id, addr, now));
            assert(signed.subrange(4, 8) =~= signed.subrange(0, 12).subrange(4, 8));
            assert(signed.subrange(8, 12) =~= signed.subrange(0, 12).subrange(8, 12));
            let h = spec_header(TYPE_RESPONSE, self_id@, peer_id@);
            assert(h.subrange(4, 8) =~= self_id@);
            assert(h.subrange(8, 12) =~= peer_id@);
            assert(signed.subrange(0, 60) =~= signed.subrange(0, 76).subrange(0, 60));
            assert(unsigned.subrange(0, 60) =~= unsigned.subrange(0, 76).subrange(0, 60));
            assert(signed.subrange(60, 76) =~= signed.subrange(0, 76).subrange(60, 76));
            assert(unsigned.subrange(60, 76) =~= unsigned.subrange(0, 76).subrange(60, 76));
            assert(spec_mac1_valid(key, unsigned, RESPONSE_BODY_LEN as int));
            assert(spec_mac1_valid(key, signed, RESPONSE_BODY_LEN as int));
        }
        r
    }
}

/// Signing with a cookie leaves all but the last 16 bytes as they were.
pub proof fn lemma_cookie_sign_keeps_front(m: Seq<u8>, cookie: Option<Cookie>, now: u64, n: int)
    requires
        0 <= n <= m.len() - MAC_LEN,
    ensures
        spec_cookie_sign(m, cookie, now).subrange(0, n) == m.subrange(0, n),
{
    assert(spec_cookie_sign(m, cookie, now).subrange(0, n) =~= m.subrange(0, n));
}


/// The index map without the entry of an index, where there is one to remove.
pub open spec fn spec_without_key(m: Map<u32, usize>, k: Option<u32>) -> Map<u32, usize> {
    match k {
        Some(d) => m.remove(d),
        None => m,
    }
}

/// What the timer finds of a handshake that waits for its response.
#[derive(Debug, Copy, Clone, PartialEq, Eq, Structural)]
pub enum Phase {
    /// The attempt has lasted `REKEY_ATTEMPT_TIME`: give up.
    Expired,
    /// No response for `REKEY_TIMEOUT`: send again.
    Retry,
    /// Keep waiting.
    Wait,
}

/// What the timer finds at `now` of a handshake last sent at `sent_at` that
/// is to be given up at `deadline`.
pub open spec fn spec_phase(sent_at: u64, deadline: u64, now: u64) -> Phase {
    if now >= deadline {
        Phase::Expired
    } else if spec_elapsed(now, sent_at) >= spec_seconds(REKEY_TIMEOUT) {
        Phase::Retry
    } else {
        Phase::Wait
    }
}

/// What the timer finds at `now` of a handshake last sent at `sent_at` that
/// is to be given up at `deadline`.
pub fn phase(sent_at: u64, deadline: u64, now: u64) -> (r: Phase)
    ensures
        r == spec_phase(sent_at, deadline, now),
{
    if now >= deadline {
        Phase::Expired
    } else if elapsed(now, sent_at) >= seconds(REKEY_TIMEOUT) {
        Phase::Retry
    } else {
        Phase::Wait
    }
}

/// The time `REKEY_ATTEMPT_TIME` after `now`, or the end of time where that
/// is sooner.
pub open spec fn spec_deadline(now: u64) -> u64 {
    if now + spec_seconds(REKEY_ATTEMPT_TIME) <= u64::MAX {
        (now + spec_seconds(REKEY_ATTEMPT_TIME)) as u64
    } else {
        u64::MAX
    }
}

/// The time `REKEY_ATTEMPT_TIME` after `now`, or the end of time where that
/// is sooner.
pub fn deadline(now: u64) -> (r: u64)
    ensures
        r == spec_deadline(now),
{
    let span: u64 = seconds(REKEY_ATTEMPT_TIME);
    if now <= u64::MAX - span {
        now + span
    } else {
        u64::MAX
    }
}

impl WgState {
    /// What sending an initiation for peer `i` at `now` leaves: a handshake
    /// under `self_id` waits for its response, the index map leads from
    /// `self_id` to the peer and no longer from the index of a handshake
    /// that was given up for it, and MAC1 of the message is remembered.
    pub open spec fn initiated(
        &self,
        after: &WgState,
        i: int,
        self_id: Id,
        msg: Seq<u8>,
        now: u64,
        deadline: u64,
    ) -> bool {
        let p = self.peers()[i];
        let q = after.peers()[i];
        &&& 0 <= i < self.peers().len()
        &&& after.only_peer_changed(self, i)
        &&& after.id_map() == spec_without_key(self.id_map(), p.handshake_key()).insert(
            self_id.spec_key(),
            i as usize,
        )
        &&& q.info == p.info
        &&& q.last_handshake == p.last_handshake
        &&& q.cookie == p.cookie
        &&& q.last_mac1.is_some()
        &&& q.last_mac1.unwrap()@ == msg.subrange(INITIATION_BODY_LEN as int, INITIATION_BODY_LEN + MAC_LEN)
        &&& q.handshake.is_some()
        &&& q.handshake.unwrap().self_id == self_id
        &&& q.handshake.unwrap().sent_at == now
        &&& q.handshake.unwrap().deadline == deadline
        &&& q.handshake.unwrap().hs.spec_is_initiator()
        &&& q.handshake.unwrap().hs.spec_messages() == 1
        &&& q.primary_transport == p.primary_transport
        &&& q.secondary_transport == p.secondary_transport
    }

    /// Record that the initiation `msg` under `self_id` goes out for peer
    /// `i`: remember its MAC1, sign it with the peer's cookie, let the new
    /// handshake take the place of one that was waiting, and enter
    /// `self_id` in the index map.
    pub fn install_handshake(
        &mut self,
        i: usize,
        self_id: Id,
        hs: HS,
        msg: Vec<u8>,
        to: Endpoint,
        now: u64,
        deadline: u64,
    ) -> (r: Reaction)
        requires
            old(self).wf(),
            i < old(self).peers().len(),
            msg@.len() == INITIATION_LEN,
            hs.spec_is_initiator(),
            hs.spec_messages() == 1,
        ensures
            final(self).wf(),
            r@ == (ReactionView::Send {
                packet: spec_cookie_sign(msg@, old(self).peers()[i as int].cookie, now),
                to,
            }),
            spec_cookie_sign(msg@, old(self).peers()[i as int].cookie, now).len() == INITIATION_LEN,
            old(self).initiated(final(self), i as int, self_id, msg@, now, deadline),
            final(self).peers()[i as int].handshake.unwrap().hs == hs,
            old(self).consistent() && !old(self).id_map().contains_key(self_id.spec_key())
                ==> final(self).consistent(),
            old(self).no_leaks() ==> final(self).no_leaks(),
    {
        broadcast use vstd::std_specs::hash::group_hash_axioms;

        let mut msg = msg;
        // Extract and save mac1.
        let mut mac1 = [0u8; 16];
        let mut n: usize = 0;
        while n < 16
            invariant
                n <= 16,
                msg@.len() == INITIATION_LEN,
                forall|j: int| 0 <= j < n ==> mac1@[j] == msg@[INITIATION_BODY_LEN + j],
            decreases 16 - n,
        {
            mac1[n] = msg[INITIATION_BODY_LEN + n];
            n = n + 1;
        }
        assert(mac1@ =~= msg@.subrange(INITIATION_BODY_LEN as int, INITIATION_BODY_LEN + MAC_LEN));
        self.peers[i].last_mac1 = Some(mac1);
        cookie_sign(&mut msg, self.peers[i].cookie.as_ref(), now);
        let given_up = self.peers[i].handshake.take();
        match given_up {
            Some(h) => {
                self.id_map.remove(&h.self_id.key());
            },
            None => {},
        }
        self.peers[i].handshake = Some(Handshake { self_id: self_id, hs: hs, sent_at: now, deadline: deadline });
        self.id_map.insert(self_id.key(), i);
        proof {
            if old(self).no_leaks() {
                let before = old(self).peers()[i as int];
                assert forall|k: u32| #[trigger] self.id_map().contains_key(k) implies 0
                    <= self.id_map()[k] < self.peers().len() && self.peers()[self.id_map()[k] as int].has_key(
                    k,
                ) by {
                    if k != self_id.spec_key() {
                        assert(old(self).id_map().contains_key(k));
                        if old(self).id_map()[k] == i {
                            assert(before.has_key(k));
                        }
                    }
                }
            }
        }
        proof {
            if old(self).consistent() && !old(self).id_map().contains_key(self_id.spec_key()) {
                let before = old(self).peers()[i as int];
                assert(before.distinct_keys());
                if let Some(d) = before.primary_key() {
                    assert(before.has_key(d));
                }
                if let Some(d) = before.secondary_key() {
                    assert(before.has_key(d));
                }
                if let Some(d) = before.handshake_key() {
                    assert(before.has_key(d));
                }
                assert forall|k: u32| #[trigger]
                    self.peers()[i as int].has_key(k) implies self.id_map().contains_key(k)
                    && self.id_map()[k] == i by {
                    if k != self_id.spec_key() {
                        assert(before.has_key(k));
                    }
                }
                assert forall|k: u32| #[trigger] self.id_map().contains_key(k) implies (self.id_map()[k]
                    == i && self.peers()[i as int].has_key(k)) || (old(self).id_map().contains_key(k)
                    && old(self).id_map()[k] != i && self.id_map()[k] == old(self).id_map()[k]) by {
                    if k != self_id.spec_key() && old(self).id_map()[k] == i {
                        assert(before.has_key(k));
                    }
                }
                self.lemma_consistent_update(old(self), i as int);
            }
        }
        Reaction::Send { packet: msg, to }
    }

    /// What becomes of an initiation for peer `i` under `self_id` once it
    /// was built, or could not be: an error is the reason for dropping the
    /// attempt, with nothing changed; a message is recorded and is to be
    /// sent to `to`, signed with the peer's cookie.
    pub fn conclude_initiation(
        &mut self,
        i: usize,
        self_id: Id,
        made: Result<(Vec<u8>, HS), HandshakeError>,
        to: Endpoint,
        now: u64,
        deadline: u64,
    ) -> (r: Reaction)
        requires
            old(self).wf(),
            i < old(self).peers().len(),
            made matches Ok((m, hs)) ==> m@.len() == INITIATION_LEN && hs.spec_is_initiator()
                && hs.spec_messages() == 1,
        ensures
            final(self).wf(),
            match made {
                Err(e) => r@ == ReactionView::Dropped(Dropped::Handshake(e)) && final(self).unchanged(
                    old(self),
                ),
                Ok((m, hs)) => {
                    &&& r@ == (ReactionView::Send {
                        packet: spec_cookie_sign(m@, old(self).peers()[i as int].cookie, now),
                        to,
                    })
                    &&& spec_cookie_sign(m@, old(self).peers()[i as int].cookie, now).len()
                        == INITIATION_LEN
                    &&& old(self).initiated(final(self), i as int, self_id, m@, now, deadline)
                    &&& final(self).peers()[i as int].handshake.unwrap().hs == hs
                },
            },
            old(self).consistent() && !old(self).id_map().contains_key(self_id.spec_key())
                ==> final(self).consistent(),
            old(self).no_leaks() ==> final(self).no_leaks(),
    {
        match made {
            Err(e) => Reaction::Dropped(Dropped::Handshake(e)),
            Ok((msg, hs)) => self.install_handshake(i, self_id, hs, msg, to, now, deadline),
        }
    }

    /// Build an initiation for peer `i` under a new random index and record
    /// it, to be sent to `to`; the attempt is to be given up at `deadline`.
    ///
    /// The Noise state is made for that peer and given the clock's time to
    /// write. Where it refuses, its error is the reason for dropping the
    /// attempt and nothing changes. Otherwise the handshake waits under the
    /// new index, and the message, signed with the peer's cookie, is to be
    /// sent to `to`.
    pub fn send_initiation(&mut self, i: usize, to: Endpoint, now: u64, deadline: u64) -> (r: Reaction)
        requires
            old(self).wf(),
            i < old(self).peers().len(),
        ensures
            final(self).wf(),
            r@ is Dropped ==> final(self).unchanged(old(self)),
            r@ matches ReactionView::Dropped(d) ==> (d matches Dropped::Handshake(e)
                && spec_refused_by_noise(e)),
            r@ is Send ==> final(self).peers()[i as int].handshake.is_some() && spec_initiation_state(
                final(self).peers()[i as int].handshake.unwrap().hs,
                old(self).info(),
                old(self).peers()[i as int].info.peer_pubkey@,
            ),
            !(r@ is Done) && !(r@ is WriteTun),
            old(self).no_leaks() ==> final(self).no_leaks(),
            final(self).same_config(old(self)),
            forall|j: int|
                0 <= j < final(self).peers().len() ==> aged(
                    old(self).peers()[j],
                    #[trigger] final(self).peers()[j],
                ) && final(self).peers()[j].primary_transport == old(self).peers()[j].primary_transport
                    && final(self).peers()[j].secondary_transport == old(self).peers()[j].secondary_transport,
            r@ matches ReactionView::Send { packet, to: dest } ==> {
                &&& dest == to
                &&& packet.len() == INITIATION_LEN
                &&& exists|self_id: Id, msg: Seq<u8>|
                    {
                        &&& #[trigger] old(self).initiated(
                            final(self),
                            i as int,
                            self_id,
                            msg,
                            now,
                            deadline,
                        )
                        &&& packet == spec_cookie_sign(msg, old(self).peers()[i as int].cookie, now)
                        &&& msg.len() == INITIATION_LEN
                        &&& msg.subrange(0, 8) == spec_header(
                            TYPE_INITIATION,
                            self_id@,
                            Seq::<u8>::empty(),
                        )
                        &&& spec_mac1_valid(
                            old(self).peers()[i as int].info.peer_pubkey@,
                            msg,
                            INITIATION_BODY_LEN as int,
                        )
                        &&& (old(self).consistent() && !old(self).id_map().contains_key(
                            self_id.spec_key(),
                        ) ==> final(self).consistent())
                    }
            },
    {
        let self_id = Id::gen();
        let made = initiate(&self.info, &self.peers[i].info, self_id);
        let ghost unsigned = if made.is_ok() {
            made.unwrap().0@
        } else {
            Seq::<u8>::empty()
        };
        let ghost ok = made.is_ok();
        let r = self.conclude_initiation(i, self_id, made, to, now, deadline);
        proof {
            if ok {
                assert(old(self).initiated(final(self), i as int, self_id, unsigned, now, deadline));
            }
        }
        r
    }

    /// What starting a handshake with peer `i` at `now` does: `r` is the
    /// reaction and `after` the state that it leaves. Without an endpoint,
    /// and where the Noise state refuses, nothing changes and the reason is
    /// given. Otherwise a handshake made for that peer waits under a new
    /// index until `REKEY_ATTEMPT_TIME` after `now`, and its initiation,
    /// signed with the peer's cookie, is to be sent to the endpoint.
    pub open spec fn start_outcome(&self, after: &WgState, i: int, now: u64, r: ReactionView) -> bool {
        let peer = self.peers()[i];
        &&& !(r is Done) && !(r is WriteTun)
        &&& peer.info.endpoint.is_none() ==> r == ReactionView::Dropped(Dropped::NoEndpoint)
        &&& peer.info.endpoint.is_some() && r is Dropped ==> (r matches ReactionView::Dropped(
            Dropped::Handshake(e),
        ) && spec_refused_by_noise(e))
        &&& r is Dropped ==> after.unchanged(self)
        &&& r matches ReactionView::Send { packet, to } ==> {
            &&& Some(to) == peer.info.endpoint
            &&& packet.len() == INITIATION_LEN
            &&& after.peers()[i].handshake.is_some()
            &&& spec_initiation_state(
                after.peers()[i].handshake.unwrap().hs,
                self.info(),
                peer.info.peer_pubkey@,
            )
            &&& exists|self_id: Id, msg: Seq<u8>|
                {
                    &&& #[trigger] self.initiated(after, i, self_id, msg, now, spec_deadline(now))
                    &&& packet == spec_cookie_sign(msg, peer.cookie, now)
                    &&& msg.len() == INITIATION_LEN
                    &&& msg.subrange(0, 8) == spec_header(TYPE_INITIATION, self_id@, Seq::<u8>::empty())
                    &&& spec_mac1_valid(peer.info.peer_pubkey@, msg, INITIATION_BODY_LEN as int)
                    &&& (self.consistent() && !self.id_map().contains_key(self_id.spec_key())
                        ==> after.consistent())
                }
        }
    }

    /// Start a handshake with peer `i`, whose endpoint must be known: an
    /// initiation is to be sent there, and the attempt lasts
    /// `REKEY_ATTEMPT_TIME` from `now`.
    pub fn start_handshake(&mut self, i: usize, now: u64) -> (r: Reaction)
        requires
            old(self).wf(),
            i < old(self).peers().len(),
        ensures
            final(self).wf(),
            old(self).start_outcome(final(self), i as int, now, r@),
            old(self).peers()[i as int].info.endpoint.is_none() ==> r@ == ReactionView::Dropped(
                Dropped::NoEndpoint,
            ),
            r@ is Dropped ==> final(self).unchanged(old(self)),
            !(r@ is Done) && !(r@ is WriteTun),
            old(self).no_leaks() ==> final(self).no_leaks(),
            final(self).same_config(old(self)),
            forall|j: int|
                0 <= j < final(self).peers().len() ==> aged(
                    old(self).peers()[j],
                    #[trigger] final(self).peers()[j],
                ) && final(self).peers()[j].primary_transport == old(self).peers()[j].primary_transport
                    && final(self).peers()[j].secondary_transport == old(self).peers()[j].secondary_transport,
            r@ matches ReactionView::Send { packet, to } ==> {
                &&& Some(to) == old(self).peers()[i as int].info.endpoint
                &&& packet.len() == INITIATION_LEN
                &&& exists|self_id: Id, msg: Seq<u8>|
                    {
                        &&& #[trigger] old(self).initiated(
                            final(self),
                            i as int,
                            self_id,
                            msg,
                            now,
                            spec_deadline(now),
                        )
                        &&& packet == spec_cookie_sign(msg, old(self).peers()[i as int].cookie, now)
                        &&& msg.len() == INITIATION_LEN
                        &&& msg.subrange(0, 8) == spec_header(
                            TYPE_INITIATION,
                            self_id@,
                            Seq::<u8>::empty(),
                        )
                        &&& spec_mac1_valid(
                            old(self).peers()[i as int].info.peer_pubkey@,
                            msg,
                            INITIATION_BODY_LEN as int,
                        )
                        &&& (old(self).consistent() && !old(self).id_map().contains_key(
                            self_id.spec_key(),
                        ) ==> final(self).consistent())
                    }
            },
    {
        match self.peers[i].info.endpoint {
            None => Reaction::Dropped(Dropped::NoEndpoint),
            Some(to) => {
                let d = deadline(now);
                self.send_initiation(i, to, now, d)
            },
        }
    }

    /// Give up the handshake of peer `i`: it is forgotten and its index
    /// leaves the index map.
    pub fn abandon_handshake(&mut self, i: usize)
        requires
            old(self).wf(),
            i < old(self).peers().len(),
        ensures
            final(self).wf(),
            final(self).only_peer_changed(old(self), i as int),
            final(self).peers()[i as int] == (PeerState {
                handshake: None,
                ..old(self).peers()[i as int]
            }),
            final(self).id_map() == spec_without_key(
                old(self).id_map(),
                old(self).peers()[i as int].handshake_key(),
            ),
            old(self).consistent() ==> final(self).consistent(),
    {
        broadcast use vstd::std_specs::hash::group_hash_axioms;

        let given_up = self.peers[i].handshake.take();
        match given_up {
            Some(h) => {
                self.id_map.remove(&h.self_id.key());
            },
            None => {
                assert(self.peers@ =~= old(self).peers@);
            },
        }
        proof {
            if old(self).consistent() {
                let before = old(self).peers()[i as int];
                assert(before.distinct_keys());
                if let Some(d) = before.handshake_key() {
                    assert(before.has_key(d));
                }
                assert forall|k: u32| #[trigger]
                    self.peers()[i as int].has_key(k) implies self.id_map().contains_key(k)
                    && self.id_map()[k] == i by {
                    assert(before.has_key(k));
                }
                assert forall|k: u32| #[trigger] self.id_map().contains_key(k) implies (self.id_map()[k]
                    == i && self.peers()[i as int].has_key(k)) || (old(self).id_map().contains_key(k)
                    && old(self).id_map()[k] != i && self.id_map()[k] == old(self).id_map()[k]) by {
                    if old(self).id_map()[k] == i {
                        assert(before.has_key(k));
                    }
                }
                self.lemma_consistent_update(old(self), i as int);
            }
        }
    }

    /// Let the clock act on the handshake of peer `i`. After
    /// `REKEY_ATTEMPT_TIME` it is given up; after `REKEY_TIMEOUT` without a
    /// response a new initiation, under a new index, is to be sent in its
    /// place, with the same deadline; before that, and where no handshake
    /// waits, nothing happens.
    pub fn handshake_timer(&mut self, i: usize, now: u64) -> (r: Reaction)
        requires
            old(self).wf(),
            i < old(self).peers().len(),
        ensures
            final(self).wf(),
            !(r@ is WriteTun),
            match old(self).peers()[i as int].handshake {
                None => r@ is Done && final(self).unchanged(old(self)),
                Some(h) => match spec_phase(h.sent_at, h.deadline, now) {
                    Phase::Wait => r@ is Done && final(self).unchanged(old(self)),
                    Phase::Expired => {
                        &&& r@ is Done
                        &&& final(self).only_peer_changed(old(self), i as int)
                        &&& final(self).peers()[i as int] == (PeerState {
                            handshake: None,
                            ..old(self).peers()[i as int]
                        })
                        &&& final(self).id_map() == old(self).id_map().remove(h.self_id.spec_key())
                        &&& (old(self).consistent() ==> final(self).consistent())
                    },
                    Phase::Retry => {
                        &&& !(r@ is Done)
                        &&& old(self).peers()[i as int].info.endpoint.is_none() ==> r@
                            == ReactionView::Dropped(Dropped::NoEndpoint)
                        &&& old(self).peers()[i as int].info.endpoint.is_some() && r@ is Dropped ==> (
                        r@ matches ReactionView::Dropped(Dropped::Handshake(e))
                            && spec_refused_by_noise(e))
                        &&& r@ is Dropped ==> final(self).unchanged(old(self))
                        &&& r@ is Send ==> final(self).peers()[i as int].handshake.is_some()
                            && spec_initiation_state(
                            final(self).peers()[i as int].handshake.unwrap().hs,
                            old(self).info(),
                            old(self).peers()[i as int].info.peer_pubkey@,
                        )
                        &&& r@ matches ReactionView::Send { packet, to } ==> {
                            &&& Some(to) == old(self).peers()[i as int].info.endpoint
                            &&& packet.len() == INITIATION_LEN
                            &&& exists|self_id: Id, msg: Seq<u8>|
                                {
                                    &&& #[trigger] old(self).initiated(
                                        final(self),
                                        i as int,
                                        self_id,
                                        msg,
                                        now,
                                        h.deadline,
                                    )
                                    &&& packet == spec_cookie_sign(
                                        msg,
                                        old(self).peers()[i as int].cookie,
                                        now,
                                    )
                                    &&& (old(self).consistent() && !old(self).id_map().contains_key(
                                        self_id.spec_key(),
                                    ) ==> final(self).consistent())
                                }
                        }
                    },
                },
            },
    {
        let (sent_at, until) = match &self.peers[i].handshake {
            None => {
                return Reaction::Done;
            },
            Some(h) => (h.sent_at, h.deadline),
        };
        match phase(sent_at, until, now) {
            Phase::Wait => Reaction::Done,
            Phase::Expired => {
                self.abandon_handshake(i);
                Reaction::Done
            },
            Phase::Retry => match self.peers[i].info.endpoint {
                None => Reaction::Dropped(Dropped::NoEndpoint),
                Some(to) => self.send_initiation(i, to, now, until),
            },
        }
    }
}


impl WgState {
    /// What completing the handshake of peer `i` at `now` leaves: the
    /// session, which goes by the handshake's index, is the primary one and
    /// the primary one the secondary, whose predecessor has left with its
    /// index; no handshake waits, and the peer's endpoint is `addr`.
    pub open spec fn completed(&self, after: &WgState, i: int, peer_id: Id, addr: Endpoint, now: u64) -> bool {
        let p = self.peers()[i];
        let q = after.peers()[i];
        &&& 0 <= i < self.peers().len()
        &&& p.handshake.is_some()
        &&& after.only_peer_changed(self, i)
        &&& after.id_map() == spec_without_key(self.id_map(), p.secondary_key())
        &&& q.info.endpoint == Some(addr)
        &&& q.info.peer_pubkey == p.info.peer_pubkey
        &&& q.info.allowed_ips == p.info.allowed_ips
        &&& q.last_handshake == p.last_handshake
        &&& q.cookie == p.cookie
        &&& q.last_mac1 == p.last_mac1
        &&& q.handshake.is_none()
        &&& q.primary_transport.is_some()
        &&& q.primary_transport.unwrap().is_new(p.handshake.unwrap().self_id, peer_id, true, now)
        &&& q.secondary_transport == p.primary_transport
    }

    /// Complete the handshake of peer `i` with the Noise state `hs` that has
    /// read the response: the sender's address becomes the endpoint, the new
    /// session is rotated in under the handshake's index, and the handshake
    /// is forgotten.
    pub fn complete_handshake(&mut self, i: usize, peer_id: Id, hs: HS, addr: Endpoint, now: u64)
        requires
            old(self).wf(),
            i < old(self).peers().len(),
            old(self).peers()[i as int].handshake.is_some(),
            hs.spec_is_initiator(),
            hs.established(),
        ensures
            final(self).wf(),
            old(self).completed(final(self), i as int, peer_id, addr, now),
            old(self).consistent() ==> final(self).consistent(),
    {
        broadcast use vstd::std_specs::hash::group_hash_axioms;

        let id = match &self.peers[i].handshake {
            Some(h) => h.self_id,
            None => {
                return ;
            },
        };
        let t = Transport::new_from_hs(id, peer_id, hs, now);
        self.set_endpoint(i, addr);
        self.peers[i].rotate_transport(t, &mut self.id_map);
        self.peers[i].handshake = None;
        proof {
            if old(self).consistent() {
                let before = old(self).peers()[i as int];
                assert(before.distinct_keys());
                if let Some(d) = before.primary_key() {
                    assert(before.has_key(d));
                }
                if let Some(d) = before.secondary_key() {
                    assert(before.has_key(d));
                }
                if let Some(d) = before.handshake_key() {
                    assert(before.has_key(d));
                }
                assert forall|k: u32| #[trigger]
                    self.peers()[i as int].has_key(k) implies self.id_map().contains_key(k)
                    && self.id_map()[k] == i by {
                    assert(before.has_key(k));
                }
                assert forall|k: u32| #[trigger] self.id_map().contains_key(k) implies (self.id_map()[k]
                    == i && self.peers()[i as int].has_key(k)) || (old(self).id_map().contains_key(k)
                    && old(self).id_map()[k] != i && self.id_map()[k] == old(self).id_map()[k]) by {
                    if old(self).id_map()[k] == i {
                        assert(before.has_key(k));
                    }
                }
                self.lemma_consistent_update(old(self), i as int);
            }
        }
    }

    /// The peer whose handshake a response is for: the receiver index of
    /// the response is in the index map, and the peer that it leads to has a
    /// handshake that goes by it.
    pub open spec fn spec_handshake_of(&self, p: Seq<u8>) -> Option<usize> {
        if p.len() < 12 {
            None
        } else {
            let k = Id::spec_key_of(p.subrange(8, 12));
            if self.id_map().contains_key(k) && self.peers()[self.id_map()[k] as int].handshake_key()
                == Some(k) {
                Some(self.id_map()[k])
            } else {
                None
            }
        }
    }

    /// Handle a handshake response that came from `addr`.
    ///
    /// Its receiver index must lead to a peer whose handshake goes by it,
    /// and it must carry the MAC1 that our public key calls for. The Noise
    /// state of the handshake reads a copy of it, so that a forged response
    /// spoils nothing. A genuine one completes the handshake. A response
    /// that is dropped changes nothing.
    pub fn udp_get_handshake_resp(&mut self, p: &[u8], addr: Endpoint, now: u64) -> (r: Reaction)
        requires
            old(self).wf(),
        ensures
            final(self).wf(),
            old(self).handshake_resp_outcome(final(self), p@, addr, now, r@),
    {
        if p.len() < 12 {
            return Reaction::Dropped(Dropped::TooShort);
        }
        let self_id = Id::from_slice(slice_subrange(p, 8, 12));
        let i = match self.peer_by_id(self_id) {
            Some(i) => i,
            None => {
                return Reaction::Dropped(Dropped::UnknownId);
            },
        };
        let mut hs = match &self.peers[i].handshake {
            None => {
                return Reaction::Dropped(Dropped::NoHandshake);
            },
            Some(h) => {
                if h.self_id.key() != self_id.key() {
                    return Reaction::Dropped(Dropped::NoHandshake);
                }
                h.hs.fork()
            },
        };
        if !hs.get_is_initiator() || hs.messages() != 1 {
            return Reaction::Dropped(Dropped::NoHandshake);
        }
        match process_response(&self.info, &mut hs, p) {
            Err(e) => Reaction::Dropped(Dropped::Handshake(e)),
            Ok(peer_id) => {
                self.complete_handshake(i, peer_id, hs, addr, now);
                assert(old(self).completed(final(self), i as int, peer_id, addr, now));
                Reaction::Done
            },
        }
    }

    /// Handle a cookie reply.
    ///
    /// Its receiver index must lead to a peer that has sent a handshake
    /// message, and it must authenticate under the key of that peer's public
    /// key with the MAC1 of the message last sent as associated data. The
    /// cookie is then kept for that peer, as received at `now`.
    pub fn udp_get_cookie_reply(&mut self, p: &[u8], now: u64) -> (r: Reaction)
        requires
            old(self).wf(),
        ensures
            final(self).wf(),
            old(self).cookie_reply_outcome(final(self), p@, now, r@),
    {
        if p.len() < 8 {
            return Reaction::Dropped(Dropped::TooShort);
        }
        let self_id = Id::from_slice(slice_subrange(p, 4, 8));
        let i = match self.peer_by_id(self_id) {
            Some(i) => i,
            None => {
                return Reaction::Dropped(Dropped::UnknownId);
            },
        };
        let mac1 = match self.peers[i].last_mac1 {
            Some(m) => m,
            None => {
                return Reaction::Dropped(Dropped::NoHandshake);
            },
        };
        match process_cookie_reply(&self.peers[i].info.peer_pubkey, &mac1, p, now) {
            Ok(cookie) => {
                self.peers[i].cookie = Some(cookie);
                proof {
                    assert(self.all_same_keys(old(self))) by {
                        assert forall|j: int| 0 <= j < self.peers().len() implies same_keys(
                            #[trigger] self.peers()[j],
                            old(self).peers()[j],
                        ) by {}
                    }
                    self.lemma_same_keys(old(self));
                }
                Reaction::Done
            },
            Err(_) => Reaction::Dropped(Dropped::Cookie),
        }
    }

    /// Handle an inner packet that was read from the device.
    ///
    /// Its destination address picks the peer, which must have an endpoint.
    /// With a primary session the packet is sealed and is to be sent there.
    /// Without one, a handshake is started unless one is under way, and the
    /// packet is lost.
    pub fn tun_packet(&mut self, pkt: &[u8], now: u64) -> (r: Reaction)
        requires
            old(self).wf(),
            pkt@.len() + OVERHEAD <= usize::MAX,
        ensures
            final(self).wf(),
            !(r@ is Done) && !(r@ is WriteTun),
            match spec_parse_ip_packet(pkt@) {
                None => r@ == ReactionView::Dropped(Dropped::NotIp) && final(self).unchanged(old(self)),
                Some(h) => match old(self).spec_route(h.dst) {
                    None => r@ == ReactionView::Dropped(Dropped::NoRoute) && final(self).unchanged(
                        old(self),
                    ),
                    Some(i) => {
                        let peer = old(self).peers()[i as int];
                        match peer.info.endpoint {
                            None => r@ == ReactionView::Dropped(Dropped::NoEndpoint)
                                && final(self).unchanged(old(self)),
                            Some(to) => match peer.primary_transport {
                                Some(t) => {
                                    &&& final(self).only_peer_changed(old(self), i as int)
                                    &&& final(self).id_map() == old(self).id_map()
                                    &&& final(self).peers()[i as int].same_but_transports(&peer)
                                    &&& final(self).peers()[i as int].secondary_transport
                                        == peer.secondary_transport
                                    &&& final(self).peers()[i as int].primary_transport.is_some()
                                    &&& t.same_session(
                                        &final(self).peers()[i as int].primary_transport.unwrap(),
                                    )
                                    &&& old(self).sealed(pkt@, i as int, to, r@)
                                    &&& (old(self).consistent() ==> final(self).consistent())
                                },
                                None => if peer.handshake.is_some() {
                                    r@ == ReactionView::Dropped(Dropped::HandshakeInProgress)
                                        && final(self).unchanged(old(self))
                                } else {
                                    old(self).start_outcome(final(self), i as int, now, r@)
                                },
                            },
                        }
                    },
                },
            },
    {
        let h = match parse_ip_packet(pkt) {
            Ok(h) => h,
            Err(_) => {
                return Reaction::Dropped(Dropped::NotIp);
            },
        };
        let i = match self.route(h.dst) {
            Some(i) => i,
            None => {
                // Don't know which peer to send to.
                return Reaction::Dropped(Dropped::NoRoute);
            },
        };
        let to = match self.peers[i].info.endpoint {
            Some(a) => a,
            None => {
                // Don't know peer endpoint address.
                return Reaction::Dropped(Dropped::NoEndpoint);
            },
        };
        if self.peers[i].primary_transport.is_some() {
            self.seal_for(i, to, pkt, now)
        } else if self.peers[i].handshake.is_none() {
            self.start_handshake(i, now)
        } else {
            Reaction::Dropped(Dropped::HandshakeInProgress)
        }
    }

    /// Seal `pkt` with the primary session of peer `i`, to be sent to `to`.
    pub fn seal_for(&mut self, i: usize, to: Endpoint, pkt: &[u8], now: u64) -> (r: Reaction)
        requires
            old(self).wf(),
            i < old(self).peers().len(),
            old(self).peers()[i as int].primary_transport.is_some(),
            pkt@.len() + OVERHEAD <= usize::MAX,
        ensures
            final(self).wf(),
            final(self).only_peer_changed(old(self), i as int),
            final(self).id_map() == old(self).id_map(),
            final(self).peers()[i as int].same_but_transports(&old(self).peers()[i as int]),
            final(self).peers()[i as int].secondary_transport == old(self).peers()[i as int].secondary_transport,
            final(self).peers()[i as int].primary_transport.is_some(),
            old(self).peers()[i as int].primary_transport.unwrap().same_session(
                &final(self).peers()[i as int].primary_transport.unwrap(),
            ),
            old(self).sealed(pkt@, i as int, to, r@),
            old(self).consistent() ==> final(self).consistent(),
    {
        match self.peers[i].encrypt(pkt, now) {
            Some(sealed) => {
                proof {
                    assert(self.all_same_keys(old(self))) by {
                        assert forall|j: int| 0 <= j < self.peers().len() implies same_keys(
                            #[trigger] self.peers()[j],
                            old(self).peers()[j],
                        ) by {}
                    }
                    self.lemma_same_keys(old(self));
                }
                match sealed {
                    Ok(packet) => Reaction::Send { packet, to },
                    Err(e) => Reaction::Dropped(Dropped::Transport(e)),
                }
            },
            None => Reaction::Dropped(Dropped::NoSession),
        }
    }

    /// `r` is what sealing `pkt` with the primary session of peer `i` for
    /// `to` gives: the transport message under the session's next counter,
    /// or nothing where the counter is exhausted.
    pub open spec fn sealed(&self, pkt: Seq<u8>, i: int, to: Endpoint, r: ReactionView) -> bool {
        let t = self.peers()[i].primary_transport.unwrap();
        if t.send_counter() >= REJECT_AFTER_MESSAGES {
            r == ReactionView::Dropped(Dropped::Transport(TransportError::CounterExhausted))
        } else {
            &&& r is Send
            &&& r->Send_to == to
            &&& r->Send_packet.len() == pkt.len() + OVERHEAD
            &&& is_transport_packet(
                r->Send_packet,
                t.spec_peer_id()@,
                t.send_counter(),
                chacha20poly1305_seal(t.send_key(), t.send_counter(), Seq::<u8>::empty(), pkt),
            )
            &&& spec_open(t.send_key(), r->Send_packet) == Some(pkt)
        }
    }

    /// What handling a handshake initiation from `addr` at `now` does: `r` is
    /// the reaction and `after` the state that it leaves.
    ///
    /// In this order: the message is 148 bytes long; it carries the MAC1
    /// that our public key calls for; a Noise state made from our keys reads
    /// a static key and a timestamp out of it; the static key is that of a
    /// peer; the timestamp is later than the last one accepted from that
    /// peer. A message that fails one of these is dropped for that reason
    /// and changes nothing. One that passes them all is answered, unless the
    /// Noise state refuses to write the response: the response goes to
    /// `addr` and the session is rotated in for that peer.
    pub open spec fn handshake_init_outcome(
        &self,
        after: &WgState,
        p: Seq<u8>,
        addr: Endpoint,
        now: u64,
        r: ReactionView,
    ) -> bool {
        if p.len() != INITIATION_LEN {
            r == ReactionView::Dropped(Dropped::BadLength) && after.unchanged(self)
        } else if !spec_mac1_valid(self.info().pubkey@, p, INITIATION_BODY_LEN as int) {
            r == ReactionView::Dropped(Dropped::Handshake(HandshakeError::Mac1)) && after.unchanged(
                self,
            )
        } else {
            match spec_initiation(self.info(), p) {
                None => {
                    &&& r matches ReactionView::Dropped(Dropped::Handshake(e))
                    &&& r->Dropped_0->Handshake_0 != HandshakeError::TooShort
                    &&& r->Dropped_0->Handshake_0 != HandshakeError::Mac1
                    &&& after.unchanged(self)
                },
                Some((key, timestamp)) => match spec_find_peer(self.peers(), key) {
                    None => r == ReactionView::Dropped(Dropped::UnknownPeer) && after.unchanged(self),
                    Some(i) => if !spec_timestamp_accepted(
                        self.peers()[i as int].last_handshake,
                        timestamp,
                    ) {
                        r == ReactionView::Dropped(Dropped::StaleTimestamp) && after.unchanged(self)
                    } else {
                        ||| {
                            &&& r matches ReactionView::Dropped(Dropped::Handshake(e))
                            &&& spec_refused_by_noise(r->Dropped_0->Handshake_0)
                            &&& after.unchanged(self)
                        }
                        ||| {
                            &&& r matches ReactionView::Send { packet, to }
                            &&& r->Send_to == addr
                            &&& r->Send_packet.len() == RESPONSE_LEN
                            &&& exists|self_id: Id, peer_id: Id|
                                {
                                    &&& #[trigger] self.responded(
                                        after,
                                        i as int,
                                        timestamp,
                                        self_id,
                                        peer_id,
                                        addr,
                                        now,
                                    )
                                    &&& self_id@ == r->Send_packet.subrange(4, 8)
                                    &&& peer_id@ == p.subrange(4, 8)
                                    &&& r->Send_packet.subrange(8, 12) == peer_id@
                                    &&& r->Send_packet.subrange(0, 12) == spec_header(
                                        TYPE_RESPONSE,
                                        self_id@,
                                        peer_id@,
                                    )
                                    &&& spec_mac1_valid(key, r->Send_packet, RESPONSE_BODY_LEN as int)
                                    &&& (self.consistent() && !self.id_map().contains_key(
                                        self_id.spec_key(),
                                    ) ==> after.consistent())
                                }
                        }
                    },
                },
            }
        }
    }

    /// The peer whose handshake waits for the response `p`: the receiver
    /// index of `p` is in the index map, and the peer that it leads to has a
    /// handshake that goes by it and has sent its initiation and read
    /// nothing yet.
    pub open spec fn spec_waiting_for(&self, p: Seq<u8>) -> Option<usize> {
        match self.spec_handshake_of(p) {
            None => None,
            Some(i) => {
                let hs = self.peers()[i as int].handshake.unwrap().hs;
                if hs.spec_is_initiator() && hs.spec_messages() == 1 {
                    Some(i)
                } else {
                    None
                }
            },
        }
    }

    /// What handling a handshake response from `addr` at `now` does: `r` is
    /// the reaction and `after` the state that it leaves.
    ///
    /// In this order: the message is long enough to name its receiver; the
    /// receiver index is in the index map; the peer that it leads to has a
    /// handshake that goes by it and waits for a response; the message holds
    /// its 76 bytes up to MAC1; it carries the MAC1 that our public key
    /// calls for. A message that fails one of these is dropped for that
    /// reason. Then a copy of the Noise state reads it, and where it
    /// refuses, the message is dropped for the state's reason. A message
    /// that is dropped changes nothing; one that is not completes the
    /// handshake.
    pub open spec fn handshake_resp_outcome(
        &self,
        after: &WgState,
        p: Seq<u8>,
        addr: Endpoint,
        now: u64,
        r: ReactionView,
    ) -> bool {
        if p.len() < 12 {
            r == ReactionView::Dropped(Dropped::TooShort) && after.unchanged(self)
        } else if !self.id_map().contains_key(Id::spec_key_of(p.subrange(8, 12))) {
            r == ReactionView::Dropped(Dropped::UnknownId) && after.unchanged(self)
        } else {
            match self.spec_waiting_for(p) {
                None => r == ReactionView::Dropped(Dropped::NoHandshake) && after.unchanged(self),
                Some(i) => if p.len() < RESPONSE_BODY_LEN + MAC_LEN {
                    r == ReactionView::Dropped(Dropped::Handshake(HandshakeError::TooShort))
                        && after.unchanged(self)
                } else if !spec_mac1_valid(self.info().pubkey@, p, RESPONSE_BODY_LEN as int) {
                    r == ReactionView::Dropped(Dropped::Handshake(HandshakeError::Mac1))
                        && after.unchanged(self)
                } else {
                    ||| {
                        &&& r matches ReactionView::Dropped(Dropped::Handshake(e))
                        &&& r->Dropped_0->Handshake_0 matches HandshakeError::Noise(n)
                        &&& r->Dropped_0->Handshake_0->Noise_0 != NoiseError::OutOfTurn
                        &&& after.unchanged(self)
                    }
                    ||| {
                        &&& r is Done
                        &&& exists|peer_id: Id|
                            {
                                &&& #[trigger] self.completed(after, i as int, peer_id, addr, now)
                                &&& peer_id@ == p.subrange(4, 8)
                            }
                        &&& self.consistent() ==> after.consistent()
                    }
                },
            }
        }
    }

    /// What handling a cookie reply at `now` does: `r` is the reaction and
    /// `after` the state that it leaves.
    pub open spec fn cookie_reply_outcome(&self, after: &WgState, p: Seq<u8>, now: u64, r: ReactionView) -> bool {
        &&& after.id_map() == self.id_map()
        &&& !(r is Send) && !(r is WriteTun)
        &&& r is Dropped ==> after.unchanged(self)
        &&& p.len() < 8 ==> r == ReactionView::Dropped(Dropped::TooShort)
        &&& p.len() >= 8 ==> {
            let k = Id::spec_key_of(p.subrange(4, 8));
            if !self.id_map().contains_key(k) {
                r == ReactionView::Dropped(Dropped::UnknownId)
            } else {
                let i = self.id_map()[k] as int;
                let peer = self.peers()[i];
                match peer.last_mac1 {
                    None => r == ReactionView::Dropped(Dropped::NoHandshake),
                    Some(mac1) => match spec_process_cookie_reply(peer.info.peer_pubkey@, mac1@, p) {
                        None => r == ReactionView::Dropped(Dropped::Cookie),
                        Some(c) => {
                            &&& r is Done
                            &&& after.only_peer_changed(self, i)
                            &&& after.peers()[i].cookie.is_some()
                            &&& after.peers()[i].cookie.unwrap().value@ == c
                            &&& after.peers()[i].cookie.unwrap().received == now
                            &&& after.peers()[i] == (PeerState {
                                cookie: after.peers()[i].cookie,
                                ..peer
                            })
                        },
                    },
                }
            }
        }
        &&& self.consistent() ==> after.consistent()
    }

    /// What handling a transport message from `addr` at `now` does: `r` is
    /// the reaction and `after` the state that it leaves.
    pub open spec fn transport_outcome(
        &self,
        after: &WgState,
        p: Seq<u8>,
        addr: Endpoint,
        now: u64,
        r: ReactionView,
    ) -> bool {
        &&& after.id_map() == self.id_map()
        &&& r == self.spec_transport_reaction(p, now)
        &&& match self.spec_authentic(p, now) {
            None => after.unchanged(self),
            Some((i, s, pkt)) => {
                let old_peer = self.peers()[i as int];
                let new_peer = after.peers()[i as int];
                &&& after.only_peer_changed(self, i as int)
                &&& new_peer.info.endpoint == Some(addr)
                &&& old_peer.info.endpoint == Some(addr) ==> new_peer.info == old_peer.info
                &&& new_peer.info.peer_pubkey == old_peer.info.peer_pubkey
                &&& new_peer.info.allowed_ips == old_peer.info.allowed_ips
                &&& new_peer.last_handshake == old_peer.last_handshake
                &&& new_peer.cookie == old_peer.cookie
                &&& new_peer.last_mac1 == old_peer.last_mac1
                &&& new_peer.handshake == old_peer.handshake
                &&& new_peer.transport(s).is_some()
                &&& old_peer.transport(s).unwrap().received(&new_peer.transport(s).unwrap(), p, now)
                &&& new_peer.transport(other_slot(s)) == old_peer.transport(other_slot(s))
            },
        }
        &&& self.consistent() ==> after.consistent()
    }

    /// Handle a datagram that came from `addr`: drop it where it is shorter
    /// than 12 bytes, and otherwise hand it on by its first byte.
    pub fn udp_packet(&mut self, p: &[u8], addr: Endpoint, now: u64) -> (r: Reaction)
        requires
            old(self).wf(),
        ensures
            final(self).wf(),
            p@.len() < 12 ==> r@ == ReactionView::Dropped(Dropped::TooShort) && final(self).unchanged(
                old(self),
            ),
            p@.len() >= 12 ==> if p@[0] == TYPE_INITIATION {
                old(self).handshake_init_outcome(final(self), p@, addr, now, r@)
            } else if p@[0] == TYPE_RESPONSE {
                old(self).handshake_resp_outcome(final(self), p@, addr, now, r@)
            } else if p@[0] == TYPE_COOKIE_REPLY {
                old(self).cookie_reply_outcome(final(self), p@, now, r@)
            } else if p@[0] == TYPE_TRANSPORT {
                old(self).transport_outcome(final(self), p@, addr, now, r@)
            } else {
                r@ == ReactionView::Dropped(Dropped::UnknownType) && final(self).unchanged(old(self))
            },
    {
        if p.len() < 12 {
            return Reaction::Dropped(Dropped::TooShort);
        }
        let kind: u8 = p[0];
        if kind == TYPE_INITIATION {
            self.udp_get_handshake_init(p, addr, now)
        } else if kind == TYPE_RESPONSE {
            self.udp_get_handshake_resp(p, addr, now)
        } else if kind == TYPE_COOKIE_REPLY {
            self.udp_get_cookie_reply(p, now)
        } else if kind == TYPE_TRANSPORT {
            self.udp_get_transport(p, addr, now)
        } else {
            Reaction::Dropped(Dropped::UnknownType)
        }
    }
}


impl View for Datagram {
    type V = (Seq<u8>, Endpoint);

    open spec fn view(&self) -> (Seq<u8>, Endpoint) {
        (self.packet@, self.to)
    }
}

/// The session in `slot` of the peer owes a keepalive that can be sent at
/// `now`: it is not to be deleted, it has received something at least
/// `KEEPALIVE_TIMEOUT` after it last sent, the peer's endpoint is known, and
/// the send counter is not exhausted.
pub open spec fn owes_keepalive(p: PeerState, slot: Slot, now: u64) -> bool {
    &&& p.transport(slot).is_some()
    &&& !p.transport(slot).unwrap().spec_should_delete(now)
    &&& p.transport(slot).unwrap().spec_should_keepalive()
    &&& p.info.endpoint.is_some()
    &&& p.transport(slot).unwrap().send_counter() < REJECT_AFTER_MESSAGES
}

/// `d` is a keepalive of the session in `slot` of the peer: an empty message
/// sealed under that session's sending key, for the peer's endpoint.
pub open spec fn is_keepalive_of(d: Datagram, p: PeerState, slot: Slot) -> bool {
    &&& Some(d.to) == p.info.endpoint
    &&& d.packet@.len() == OVERHEAD
    &&& spec_open(p.transport(slot).unwrap().send_key(), d.packet@) == Some(Seq::<u8>::empty())
}

/// `d` is a keepalive that a session of the peer owed at `now`.
pub open spec fn owed_keepalive(d: Datagram, p: PeerState, now: u64) -> bool {
    ||| owes_keepalive(p, Slot::Primary, now) && is_keepalive_of(d, p, Slot::Primary)
    ||| owes_keepalive(p, Slot::Secondary, now) && is_keepalive_of(d, p, Slot::Secondary)
}

/// `d` is a keepalive that a session of one of the peers owed at `now`.
pub open spec fn some_owed_keepalive(d: Datagram, peers: Seq<PeerState>, now: u64) -> bool {
    exists|j: int| 0 <= j < peers.len() && owed_keepalive(d, #[trigger] peers[j], now)
}

/// Among the datagrams from place `from` on is a keepalive of the session in
/// `slot` of the peer.
pub open spec fn keepalive_sent(out: Seq<Datagram>, from: int, p: PeerState, slot: Slot) -> bool {
    exists|n: int| from <= n < out.len() && is_keepalive_of(#[trigger] out[n], p, slot)
}

/// One state of a peer comes from another by the passing of time alone:
/// configuration, timestamp and cookie are the same, and each session is
/// gone or is the session of before.
pub open spec fn aged(before: PeerState, after: PeerState) -> bool {
    &&& after.info == before.info
    &&& after.last_handshake == before.last_handshake
    &&& after.cookie == before.cookie
    &&& session_aged(before.primary_transport, after.primary_transport)
    &&& session_aged(before.secondary_transport, after.secondary_transport)
}

/// A session is gone or is the session of before.
pub open spec fn session_aged(before: Option<Transport>, after: Option<Transport>) -> bool {
    after matches Some(t) ==> before.is_some() && before.unwrap().same_session(&t)
}

/// No session of the peer is three `REJECT_AFTER_TIME` old at `now`.
pub open spec fn settled(p: PeerState, now: u64) -> bool {
    &&& p.primary_transport matches Some(t) ==> !t.spec_should_delete(now)
    &&& p.secondary_transport matches Some(t) ==> !t.spec_should_delete(now)
}

impl WgState {
    /// Every peer comes from its state of before by the passing of time alone.
    pub open spec fn all_aged(&self, before: &WgState) -> bool {
        &&& self.same_config(before)
        &&& forall|j: int|
            0 <= j < self.peers().len() ==> aged(before.peers()[j], #[trigger] self.peers()[j])
    }

    /// Remove from the index map every entry whose peer does not go by its
    /// index. The peers are left alone.
    pub fn repair_leaks(&mut self)
        requires
            old(self).wf(),
        ensures
            final(self).wf(),
            final(self).same_config(old(self)),
            final(self).peers() == old(self).peers(),
            forall|k: u32| #[trigger]
                final(self).id_map().contains_key(k) <==> old(self).id_map().contains_key(k) && old(self).peers()[old(self).id_map()[k] as int].has_key(k),
            forall|k: u32| #[trigger]
                final(self).id_map().contains_key(k) ==> final(self).id_map()[k] == old(self).id_map()[k],
            final(self).no_leaks(),
            old(self).ids_claimed() ==> final(self).ids_claimed(),
            old(self).distinct_ids() ==> final(self).distinct_ids(),
    {
        broadcast use vstd::std_specs::hash::group_hash_axioms;

        // Detect id map leaks.
        let to_remove = self.leaked();
        let mut n: usize = 0;
        while n < to_remove.len()
            invariant
                n <= to_remove@.len(),
                self.wf(),
                self.same_config(old(self)),
                self.peers@ == old(self).peers@,
                forall|k: u32| #[trigger]
                    self.id_map@.contains_key(k) <==> old(self).id_map@.contains_key(k)
                        && !to_remove@.take(n as int).contains(k),
                forall|k: u32| #[trigger]
                    self.id_map@.contains_key(k) ==> self.id_map@[k] == old(self).id_map@[k],
            decreases to_remove@.len() - n,
        {
            let k: u32 = to_remove[n];
            self.id_map.remove(&k);
            proof {
                let done = to_remove@.take(n as int);
                let next = to_remove@.take(n + 1);
                assert(next =~= done.push(k));
                assert forall|x: u32| next.contains(x) <==> done.contains(x) || x == k by {
                    if done.contains(x) {
                        let j = choose|j: int| 0 <= j < done.len() && done[j] == x;
                        assert(next[j] == x);
                    }
                    if x == k {
                        assert(next[n as int] == k);
                    }
                    if next.contains(x) {
                        let j = choose|j: int| 0 <= j < next.len() && next[j] == x;
                        if j < n {
                            assert(done[j] == x);
                        }
                    }
                }
            }
            n = n + 1;
        }
        proof {
            assert(to_remove@.take(n as int) =~= to_remove@);
        }
    }

    /// The indices of the index map whose peers do not go by them.
    fn leaked(&self) -> (r: Vec<u32>)
        requires
            self.wf(),
        ensures
            forall|k: u32|
                r@.contains(k) <==> self.id_map().contains_key(k) && !self.peers()[self.id_map()[k] as int].has_key(
                    k,
                ),
    {
        broadcast use vstd::std_specs::hash::group_hash_axioms;

        let mut out: Vec<u32> = Vec::new();
        let ghost ks: Seq<u32> = spec_keys_iter(&self.id_map).remaining().unref();
        assert(ks.to_set() == self.id_map@.dom());
        for k in iter: self.id_map.keys()
            invariant
                self.wf(),
                iter.seq() == spec_keys_iter(&self.id_map).remaining(),
                ks == spec_keys_iter(&self.id_map).remaining().unref(),
                ks.to_set() == self.id_map@.dom(),
                forall|x: u32|
                    out@.contains(x) ==> self.id_map@.contains_key(x) && !self.peers@[self.id_map@[x] as int].has_key(
                        x,
                    ),
                forall|j: int|
                    0 <= j < iter.index() && !self.peers@[self.id_map@[ks[j]] as int].has_key(ks[j])
                        ==> out@.contains(#[trigger] ks[j]),
        {
            proof {
                assert(*k == ks[iter.index()]);
                assert(ks.to_set().contains(ks[iter.index()]));
            }
            let ghost prev = out@;
            let i: usize = match self.id_map.get(k) {
                Some(i) => *i,
                None => 0,
            };
            if !self.peers[i].has_index(*k) {
                out.push(*k);
                proof {
                    assert(out@[out@.len() - 1] == *k);
                    assert forall|x: u32| out@.contains(x) implies self.id_map@.contains_key(x)
                        && !self.peers@[self.id_map@[x] as int].has_key(x) by {
                        let j = choose|j: int| 0 <= j < out@.len() && out@[j] == x;
                        if j < prev.len() {
                            assert(prev[j] == x);
                            assert(prev.contains(x));
                        }
                    }
                }
            }
            proof {
                assert forall|j: int|
                    0 <= j < iter.index() + 1 && !self.peers@[self.id_map@[ks[j]] as int].has_key(
                        ks[j],
                    ) implies out@.contains(#[trigger] ks[j]) by {
                    if j < iter.index() {
                        assert(prev.contains(ks[j]));
                        let n = choose|n: int| 0 <= n < prev.len() && prev[n] == ks[j];
                        assert(out@[n] == ks[j]);
                    } else {
                        assert(out@[out@.len() - 1] == ks[j]);
                    }
                }
            }
        }
        proof {
            assert forall|k: u32|
                self.id_map@.contains_key(k) && !self.peers@[self.id_map@[k] as int].has_key(
                    k,
                ) implies out@.contains(k) by {
                assert(ks.to_set().contains(k));
                let j = choose|j: int| 0 <= j < ks.len() && ks[j] == k;
                assert(out@.contains(ks[j]));
            }
        }
        out
    }
}


impl WgState {
    /// Let time act on the session in `slot` of peer `i`.
    ///
    /// A session three `REJECT_AFTER_TIME` old is dropped: its index leaves
    /// the index map, and every session of the peer that goes by it leaves
    /// the peer. Otherwise, where the session owes a keepalive and the
    /// peer's endpoint is known, an empty message is sealed and added to
    /// `out`, unless the counter is exhausted.
    pub fn age_slot(&mut self, i: usize, slot: Slot, now: u64, out: &mut Vec<Datagram>)
        requires
            old(self).wf(),
            i < old(self).peers().len(),
        ensures
            final(self).wf(),
            final(self).only_peer_changed(old(self), i as int),
            final(self).peers()[i as int].same_but_transports(&old(self).peers()[i as int]),
            aged(old(self).peers()[i as int], final(self).peers()[i as int]),
            match old(self).peers()[i as int].transport(slot) {
                None => final(self).unchanged(old(self)) && final(out)@ == old(out)@,
                Some(t) => if t.spec_should_delete(now) {
                    &&& final(self).id_map() == old(self).id_map().remove(t.spec_self_id().spec_key())
                    &&& final(self).peers()[i as int].primary_transport == PeerState::spec_without(
                        old(self).peers()[i as int].primary_transport,
                        t.spec_self_id(),
                    )
                    &&& final(self).peers()[i as int].secondary_transport == PeerState::spec_without(
                        old(self).peers()[i as int].secondary_transport,
                        t.spec_self_id(),
                    )
                    &&& final(out)@ == old(out)@
                } else {
                    &&& final(self).id_map() == old(self).id_map()
                    &&& final(self).peers()[i as int].transport(other_slot(slot)) == old(self).peers()[i as int].transport(other_slot(slot))
                    &&& final(self).peers()[i as int].transport(slot).is_some()
                    &&& match old(self).peers()[i as int].info.endpoint {
                        Some(to) => if t.spec_should_keepalive() {
                            &&& t.kept_alive(&final(self).peers()[i as int].transport(slot).unwrap(), now)
                            &&& t.send_counter() >= REJECT_AFTER_MESSAGES ==> final(out)@ == old(out)@
                            &&& t.send_counter() < REJECT_AFTER_MESSAGES ==> {
                                &&& final(out)@.len() == old(out)@.len() + 1
                                &&& final(out)@.drop_last() == old(out)@
                                &&& final(out)@.last().to == to
                                &&& final(out)@.last().packet@.len() == OVERHEAD
                                &&& spec_open(t.send_key(), final(out)@.last().packet@) == Some(
                                    Seq::<u8>::empty(),
                                )
                                &&& final(self).peers()[i as int].transport(slot).unwrap().last_send()
                                    == Some(now)
                            }
                        } else {
                            final(self).unchanged(old(self)) && final(out)@ == old(out)@
                        },
                        None => final(self).unchanged(old(self)) && final(out)@ == old(out)@,
                    }
                },
            },
            final(self).peers()[i as int].transport(slot) matches Some(t) ==> !t.spec_should_delete(now),
            old(self).no_leaks() ==> final(self).no_leaks(),
            old(self).consistent() ==> final(self).consistent(),
    {
        broadcast use vstd::std_specs::hash::group_hash_axioms;

        match self.peers[i].expired(slot, now) {
            Some(id) => {
                self.id_map.remove(&id.key());
                self.peers[i].remove_peer_by_id(id);
                proof {
                    let before = old(self).peers()[i as int];
                    let after = self.peers()[i as int];
                    let d = id.spec_key();
                    assert forall|k: u32| after.has_key(k) implies before.has_key(k) && (k != d
                        || before.handshake_key() == Some(d)) by {
                        if let Some(t) = before.primary_transport {
                            Id::lemma_eq(t.spec_self_id(), id);
                        }
                        if let Some(t) = before.secondary_transport {
                            Id::lemma_eq(t.spec_self_id(), id);
                        }
                    }
                    assert forall|k: u32| before.has_key(k) && k != d implies after.has_key(k) by {
                        if let Some(t) = before.primary_transport {
                            Id::lemma_eq(t.spec_self_id(), id);
                        }
                        if let Some(t) = before.secondary_transport {
                            Id::lemma_eq(t.spec_self_id(), id);
                        }
                    }
                    if old(self).no_leaks() {
                        assert forall|k: u32| #[trigger] self.id_map().contains_key(k) implies 0
                            <= self.id_map()[k] < self.peers().len()
                            && self.peers()[self.id_map()[k] as int].has_key(k) by {
                            assert(old(self).id_map().contains_key(k));
                        }
                    }
                    if old(self).consistent() {
                        assert(before.distinct_keys());
                        assert(before.has_key(d));
                        assert forall|k: u32| #[trigger]
                            self.peers()[i as int].has_key(k) implies self.id_map().contains_key(k)
                            && self.id_map()[k] == i by {
                            assert(before.has_key(k));
                        }
                        assert forall|k: u32| #[trigger] self.id_map().contains_key(k) implies (
                        self.id_map()[k] == i && self.peers()[i as int].has_key(k)) || (old(self).id_map().contains_key(k) && old(self).id_map()[k] != i && self.id_map()[k]
                            == old(self).id_map()[k]) by {
                            if old(self).id_map()[k] == i {
                                assert(before.has_key(k));
                            }
                        }
                        self.lemma_consistent_update(old(self), i as int);
                    }
                }
            },
            None => {
                match self.peers[i].info.endpoint {
                    None => {
                        assert(self.peers@ =~= old(self).peers@);
                    },
                    Some(to) => {
                        let sealed = self.peers[i].keepalive(slot, now);
                        proof {
                            assert(self.all_same_keys(old(self))) by {
                                assert forall|j: int| 0 <= j < self.peers().len() implies same_keys(
                                    #[trigger] self.peers()[j],
                                    old(self).peers()[j],
                                ) by {}
                            }
                            self.lemma_same_keys(old(self));
                        }
                        match sealed {
                            Some(Ok(packet)) => {
                                out.push(Datagram { packet, to });
                                assert(out@.drop_last() =~= old(out)@);
                            },
                            Some(Err(_)) => {},
                            None => {
                                assert(self.peers@[i as int] == old(self).peers@[i as int]) by {
                                    let a = self.peers@[i as int];
                                    let b = old(self).peers@[i as int];
                                    assert(a.transport(slot) == b.transport(slot));
                                    assert(a.transport(other_slot(slot)) == b.transport(other_slot(slot)));
                                }
                                assert(self.peers@ =~= old(self).peers@);
                            },
                        }
                    },
                }
            },
        }
    }
}


impl WgState {
    /// Forget of peer `i` the handshake and the sessions whose indices the
    /// index map does not lead back to it from: another peer has taken
    /// them, or they left the map.
    pub fn drop_orphans_of(&mut self, i: usize)
        requires
            old(self).wf(),
            i < old(self).peers().len(),
        ensures
            final(self).wf(),
            final(self).id_map() == old(self).id_map(),
            final(self).only_peer_changed(old(self), i as int),
            aged(old(self).peers()[i as int], final(self).peers()[i as int]),
            final(self).peers()[i as int].last_mac1 == old(self).peers()[i as int].last_mac1,
            forall|k: u32| #[trigger]
                final(self).peers()[i as int].has_key(k) <==> old(self).peers()[i as int].has_key(k)
                    && old(self).id_map().contains_key(k) && old(self).id_map()[k] == i,
            final(self).peers()[i as int].primary_transport.is_some() ==> final(self).peers()[i as int].primary_transport == old(self).peers()[i as int].primary_transport,
            final(self).peers()[i as int].secondary_transport.is_some() ==> final(self).peers()[i as int].secondary_transport == old(self).peers()[i as int].secondary_transport,
            final(self).peers()[i as int].handshake.is_some() ==> final(self).peers()[i as int].handshake
                == old(self).peers()[i as int].handshake,
            final(self).peers()[i as int] == spec_without_orphans(
                old(self).peers()[i as int],
                old(self).id_map(),
                i,
            ),
    {
        broadcast use vstd::std_specs::hash::group_hash_axioms;

        let keep_h = match &self.peers[i].handshake {
            Some(h) => self.owns(i, h.self_id.key()),
            None => true,
        };
        if !keep_h {
            self.peers[i].handshake = None;
        }
        let keep_p = match &self.peers[i].primary_transport {
            Some(t) => self.owns(i, t.get_self_id().key()),
            None => true,
        };
        if !keep_p {
            self.peers[i].primary_transport = None;
        }
        let keep_s = match &self.peers[i].secondary_transport {
            Some(t) => self.owns(i, t.get_self_id().key()),
            None => true,
        };
        if !keep_s {
            self.peers[i].secondary_transport = None;
        }
    }

    /// Whether the index map leads from the index with number `k` to peer `i`.
    fn owns(&self, i: usize, k: u32) -> (r: bool)
        ensures
            r == (self.id_map().contains_key(k) && self.id_map()[k] == i),
    {
        broadcast use vstd::std_specs::hash::group_hash_axioms;

        match self.id_map.get(&k) {
            Some(j) => *j == i,
            None => false,
        }
    }

    /// Start a handshake with peer `i` where its primary session asks for a
    /// new key at `now` and no handshake is under way.
    ///
    /// Where none is due, nothing changes and nothing is to be done. Where
    /// one is due, the reaction is that of starting a handshake: the
    /// initiation to send, with the handshake waiting under a new index, or
    /// the reason why none was started, with nothing changed.
    pub fn rekey_if_due(&mut self, i: usize, now: u64) -> (r: Reaction)
        requires
            old(self).wf(),
            i < old(self).peers().len(),
        ensures
            final(self).wf(),
            if old(self).peers()[i as int].spec_rekey_due(now) {
                old(self).start_outcome(final(self), i as int, now, r@)
            } else {
                r@ is Done && final(self).unchanged(old(self))
            },
            final(self).same_config(old(self)),
            final(self).only_peer_changed(old(self), i as int),
            final(self).peers()[i as int].info == old(self).peers()[i as int].info,
            forall|j: int|
                0 <= j < final(self).peers().len() ==> aged(
                    old(self).peers()[j],
                    #[trigger] final(self).peers()[j],
                ) && final(self).peers()[j].primary_transport == old(self).peers()[j].primary_transport
                    && final(self).peers()[j].secondary_transport == old(self).peers()[j].secondary_transport,
            old(self).no_leaks() ==> final(self).no_leaks(),
    {
        if self.peers[i].rekey_due(now) {
            self.start_handshake(i, now)
        } else {
            assert forall|j: int| 0 <= j < self.peers().len() implies aged(
                old(self).peers()[j],
                #[trigger] self.peers()[j],
            ) by {}
            Reaction::Done
        }
    }

    /// One tick of the maintenance clock for peer `i`: age the primary
    /// session; where it was neither dropped nor owed a keepalive, start a
    /// handshake if it asks for a new key; then age the secondary session.
    /// Keepalives are added to `out`; what became of the handshake, if one
    /// was tried, is returned.
    pub fn maintain_peer(&mut self, i: usize, now: u64, out: &mut Vec<Datagram>) -> (r: Reaction)
        requires
            old(self).wf(),
            i < old(self).peers().len(),
        ensures
            final(self).wf(),
            final(self).all_aged(old(self)),
            settled(final(self).peers()[i as int], now),
            forall|j: int|
                0 <= j < final(self).peers().len() && j != i ==> final(self).peers()[j].primary_transport
                    == old(self).peers()[j].primary_transport && (
                #[trigger] final(self).peers()[j]).secondary_transport == old(self).peers()[j].secondary_transport,
            old(self).no_leaks() ==> final(self).no_leaks(),
            old(out)@.len() <= final(out)@.len() <= old(out)@.len() + 2,
            final(out)@.take(old(out)@.len() as int) == old(out)@,
            final(self).only_peer_changed(old(self), i as int),
            owes_keepalive(old(self).peers()[i as int], Slot::Primary, now) ==> keepalive_sent(
                final(out)@,
                old(out)@.len() as int,
                old(self).peers()[i as int],
                Slot::Primary,
            ),
            owes_keepalive(old(self).peers()[i as int], Slot::Secondary, now) && !(old(self).peers()[i as int].primary_transport matches Some(t) && t.spec_should_delete(now))
                ==> keepalive_sent(
                final(out)@,
                old(out)@.len() as int,
                old(self).peers()[i as int],
                Slot::Secondary,
            ),
            forall|n: int|
                old(out)@.len() <= n < final(out)@.len() ==> owed_keepalive(
                    #[trigger] final(out)@[n],
                    old(self).peers()[i as int],
                    now,
                ),
            if spec_rekey_tried(old(self).peers()[i as int], now) {
                rekey_reaction(old(self).peers()[i as int], now, r@)
            } else {
                r@ is Done
            },
            rekey_left(
                old(self).peers()[i as int],
                final(self).peers()[i as int],
                old(self).info(),
                now,
                r@,
            ),
            session_kept(old(self).peers()[i as int], final(self).peers()[i as int], Slot::Primary, now),
            session_kept(old(self).peers()[i as int], final(self).peers()[i as int], Slot::Secondary, now),
            sessions_ticked(old(self).peers()[i as int], final(self).peers()[i as int], now),
            forall|k: u32|
                !expired_key(old(self).peers()[i as int], k, now) && !new_key(r@, k) ==> (
                #[trigger] final(self).id_map().contains_key(k)) == old(self).id_map().contains_key(k)
                    && (old(self).id_map().contains_key(k) ==> final(self).id_map()[k] == old(self).id_map()[k]),
    {
        let ghost s0 = *self;
        let ghost o0 = out@;
        let ghost p0 = s0.peers()[i as int];
        let owed = self.peers[i].keepalive_owed(Slot::Primary);
        self.age_slot(i, Slot::Primary, now, out);
        let ghost s1 = *self;
        let ghost o1 = out@;
        proof {
            assert(o1.take(o0.len() as int) =~= o0) by {
                if o1.len() == o0.len() + 1 {
                    assert(o1.drop_last() == o0);
                }
            }
            if let Some(t) = p0.primary_transport {
                if let Some(u) = p0.secondary_transport {
                    Id::lemma_eq(t.spec_self_id(), u.spec_self_id());
                }
            }
        }
        let r = if !owed {
            self.rekey_if_due(i, now)
        } else {
            assert forall|j: int| 0 <= j < self.peers().len() implies aged(
                s1.peers()[j],
                #[trigger] self.peers()[j],
            ) by {}
            Reaction::Done
        };
        let ghost s2 = *self;
        proof {
            let p1 = s1.peers()[i as int];
            let p2 = s2.peers()[i as int];
            if spec_rekey_tried(p0, now) {
                assert(p1 == p0);
                assert(s1.start_outcome(&s2, i as int, now, r@));
                if r@ is Send {
                    let packet = r@->Send_packet;
                    let (self_id, msg) = choose|self_id: Id, msg: Seq<u8>|
                        {
                            &&& #[trigger] s1.initiated(&s2, i as int, self_id, msg, now, spec_deadline(now))
                            &&& packet == spec_cookie_sign(msg, p1.cookie, now)
                            &&& msg.len() == INITIATION_LEN
                            &&& msg.subrange(0, 8) == spec_header(
                                TYPE_INITIATION,
                                self_id@,
                                Seq::<u8>::empty(),
                            )
                            &&& spec_mac1_valid(p1.info.peer_pubkey@, msg, INITIATION_BODY_LEN as int)
                        };
                    assert(is_initiation_for(packet, self_id, msg, p0, now));
                    lemma_cookie_sign_keeps_front(msg, p1.cookie, now, 132);
                    assert(packet.subrange(4, 8) =~= packet.subrange(0, 132).subrange(4, 8));
                    assert(msg.subrange(4, 8) =~= msg.subrange(0, 132).subrange(4, 8));
                    assert(msg.subrange(4, 8) =~= msg.subrange(0, 8).subrange(4, 8));
                    let h = spec_header(TYPE_INITIATION, self_id@, Seq::<u8>::empty());
                    lemma_key_of(self_id);
                    assert(h.subrange(4, 8) =~= self_id@);
                    assert(packet.subrange(116, 132) =~= packet.subrange(0, 132).subrange(116, 132));
                    assert(msg.subrange(116, 132) =~= msg.subrange(0, 132).subrange(116, 132));
                    assert(p2.handshake.unwrap().self_id == self_id);
                    assert(new_key(r@, self_id.spec_key()));
                    assert(s2.id_map() == s1.id_map().insert(self_id.spec_key(), i));
                }
            } else {
                assert(r@ is Done);
            }
            assert(rekey_left(p1, p2, s0.info(), now, r@));
        }
        self.age_slot(i, Slot::Secondary, now, out);
        proof {
            let o3 = out@;
            let o2 = o1;
            assert(o3.take(o2.len() as int) =~= o2) by {
                if o3.len() == o2.len() + 1 {
                    assert(o3.drop_last() == o2);
                }
            }
            assert(o3.take(o0.len() as int) =~= o0);
            assert forall|j: int| 0 <= j < self.peers().len() implies aged(
                s0.peers()[j],
                #[trigger] self.peers()[j],
            ) by {
                assert(aged(s1.peers()[j], s2.peers()[j]));
                if j != i {
                    assert(s1.peers()[j] == s0.peers()[j]);
                    assert(self.peers()[j] == s2.peers()[j]);
                }
            }
            assert forall|j: int| 0 <= j < self.peers().len() && j != i implies self.peers()[j].primary_transport
                == s0.peers()[j].primary_transport && (#[trigger] self.peers()[j]).secondary_transport
                == s0.peers()[j].secondary_transport by {
                assert(aged(s1.peers()[j], s2.peers()[j]));
                assert(s1.peers()[j] == s0.peers()[j]);
                assert(self.peers()[j] == s2.peers()[j]);
            }
            let p1 = s1.peers()[i as int];
            let p2 = s2.peers()[i as int];
            let p3 = self.peers()[i as int];
            assert(aged(p1, p2));
            assert(p2.primary_transport == p1.primary_transport);
            assert(p2.secondary_transport == p1.secondary_transport);
            assert(settled(p3, now)) by {
                assert(p1.transport(Slot::Primary) matches Some(t) ==> !t.spec_should_delete(now));
                assert(session_aged(p2.primary_transport, p3.primary_transport));
            }
            if owes_keepalive(p0, Slot::Primary, now) {
                let n = o0.len() as int;
                assert(o1.len() == n + 1);
                assert(o3.take(o1.len() as int) =~= o1);
                assert(o3[n] == o1[n]);
                assert(o1[n] == o1.last());
                assert(is_keepalive_of(o3[n], p0, Slot::Primary));
            }
            if owes_keepalive(p0, Slot::Secondary, now) && !(p0.primary_transport matches Some(t)
                && t.spec_should_delete(now)) {
                assert(p1.transport(Slot::Secondary) == p0.transport(Slot::Secondary));
                assert(p2.info == p0.info);
                let n = o2.len() as int;
                assert(o3.len() == n + 1);
                assert(is_keepalive_of(o3[n], p0, Slot::Secondary));
            }
            assert forall|n: int| o0.len() <= n < o3.len() implies owed_keepalive(
                #[trigger] o3[n],
                p0,
                now,
            ) by {
                if n < o1.len() {
                    assert(o3.take(o1.len() as int)[n] == o3[n]);
                    assert(o3[n] == o1.last());
                    assert(owes_keepalive(p0, Slot::Primary, now));
                    assert(is_keepalive_of(o3[n], p0, Slot::Primary));
                } else {
                    assert(o3[n] == o3.last());
                    assert(p2.info == p0.info);
                    assert(p2.secondary_transport.is_some());
                    assert(p2.secondary_transport == p0.secondary_transport);
                    assert(owes_keepalive(p0, Slot::Secondary, now));
                    assert(is_keepalive_of(o3[n], p0, Slot::Secondary));
                }
            }
            assert(sessions_ticked(p0, p3, now)) by {
                assert(p1.info == p0.info);
                assert(p2.info == p0.info);
                if let Some(t) = p3.primary_transport {
                    assert(p2.primary_transport == Some(t));
                    assert(p1.primary_transport == Some(t));
                    assert(session_ticked(p0, Slot::Primary, t, now));
                }
                if let Some(t) = p3.secondary_transport {
                    assert(p2.secondary_transport.is_some());
                    assert(p2.secondary_transport == p0.secondary_transport);
                    assert(session_ticked(p0, Slot::Secondary, t, now));
                }
            }
            assert(rekey_left(p0, p3, s0.info(), now, r@));
            assert(session_kept(p0, p3, Slot::Primary, now));
            assert(session_kept(p0, p3, Slot::Secondary, now));
            assert forall|k: u32| !expired_key(p0, k, now) && !new_key(r@, k) implies (
            #[trigger] self.id_map().contains_key(k)) == s0.id_map().contains_key(k) && (
            s0.id_map().contains_key(k) ==> self.id_map()[k] == s0.id_map()[k]) by {
                assert(p2.secondary_transport matches Some(u) ==> p0.secondary_transport == Some(u));
            }
        }
        r
    }
}


/// The index map leads from the index with number `k`, where there is one,
/// to peer `j`; no index is led back from trivially.
pub open spec fn spec_owned(m: Map<u32, usize>, k: Option<u32>, j: usize) -> bool {
    match k {
        Some(x) => m.contains_key(x) && m[x] == j,
        None => true,
    }
}

/// Peer `j` without the handshake and the sessions whose indices the index
/// map does not lead back to it from.
pub open spec fn spec_without_orphans(p: PeerState, m: Map<u32, usize>, j: usize) -> PeerState {
    PeerState {
        handshake: if spec_owned(m, p.handshake_key(), j) {
            p.handshake
        } else {
            None
        },
        primary_transport: if spec_owned(m, p.primary_key(), j) {
            p.primary_transport
        } else {
            None
        },
        secondary_transport: if spec_owned(m, p.secondary_key(), j) {
            p.secondary_transport
        } else {
            None
        },
        ..p
    }
}

/// A session of the peer that is three `REJECT_AFTER_TIME` old at `now`
/// goes by the index with number `k`.
pub open spec fn expired_key(p: PeerState, k: u32, now: u64) -> bool {
    ||| (p.primary_transport matches Some(t) && t.spec_should_delete(now) && t.spec_self_id().spec_key()
        == k)
    ||| (p.secondary_transport matches Some(t) && t.spec_should_delete(now)
        && t.spec_self_id().spec_key() == k)
}

/// No session of any peer that is three `REJECT_AFTER_TIME` old at `now`
/// goes by the index with number `k`.
pub open spec fn no_expired_key(peers: Seq<PeerState>, k: u32, now: u64) -> bool {
    forall|m: int| 0 <= m < peers.len() ==> !expired_key(#[trigger] peers[m], k, now)
}

/// `r` is an initiation to send whose sender index has the number `k`.
pub open spec fn new_key(r: ReactionView, k: u32) -> bool {
    r matches ReactionView::Send { packet, to } && packet.len() >= 8 && Id::spec_key_of(
        packet.subrange(4, 8),
    ) == k
}

/// None of the reactions is an initiation under the index with number `k`.
pub open spec fn no_new_key(rekeys: Seq<Reaction>, k: u32) -> bool {
    forall|m: int| 0 <= m < rekeys.len() ==> !new_key((#[trigger] rekeys[m])@, k)
}

/// A tick tries to start a handshake for the peer: its primary session is
/// not three `REJECT_AFTER_TIME` old and owes no keepalive, it asks for a
/// new key, and no handshake is under way.
pub open spec fn spec_rekey_tried(p: PeerState, now: u64) -> bool {
    &&& p.primary_transport.is_some()
    &&& !p.primary_transport.unwrap().spec_should_delete(now)
    &&& !p.primary_transport.unwrap().spec_should_keepalive()
    &&& p.spec_rekey_due(now)
}

/// `packet` is the initiation `msg` of ours under `self_id` to the peer,
/// signed with the peer's cookie at `now`.
pub open spec fn is_initiation_for(packet: Seq<u8>, self_id: Id, msg: Seq<u8>, p: PeerState, now: u64) -> bool {
    &&& packet == spec_cookie_sign(msg, p.cookie, now)
    &&& msg.len() == INITIATION_LEN
    &&& msg.subrange(0, 8) == spec_header(TYPE_INITIATION, self_id@, Seq::<u8>::empty())
    &&& spec_mac1_valid(p.info.peer_pubkey@, msg, INITIATION_BODY_LEN as int)
}

/// `r` is what trying to start a handshake with the peer at `now` gives:
/// the reason why none was started, which without an endpoint is that, and
/// with one the refusal of the Noise state; or the initiation to send to
/// the peer's endpoint.
pub open spec fn rekey_reaction(p: PeerState, now: u64, r: ReactionView) -> bool {
    &&& !(r is Done) && !(r is WriteTun)
    &&& p.info.endpoint.is_none() ==> r == ReactionView::Dropped(Dropped::NoEndpoint)
    &&& p.info.endpoint.is_some() && r is Dropped ==> (r matches ReactionView::Dropped(
        Dropped::Handshake(e),
    ) && spec_refused_by_noise(e))
    &&& r matches ReactionView::Send { packet, to } ==> {
        &&& Some(to) == p.info.endpoint
        &&& packet.len() == INITIATION_LEN
        &&& exists|self_id: Id, msg: Seq<u8>| #[trigger] is_initiation_for(packet, self_id, msg, p, now)
    }
}

/// What the rekey step of a tick leaves of the peer's handshake and of the
/// MAC1 that it remembers: with an initiation to send, the handshake under
/// the initiation's index, which lasts `REKEY_ATTEMPT_TIME` from `now`, and
/// the initiation's MAC1; otherwise what was there.
pub open spec fn rekey_left(p: PeerState, q: PeerState, info: WgInfo, now: u64, r: ReactionView) -> bool {
    if r is Send {
        &&& r->Send_packet.len() == INITIATION_LEN
        &&& q.handshake.is_some()
        &&& q.handshake.unwrap().self_id@ == r->Send_packet.subrange(4, 8)
        &&& q.handshake.unwrap().sent_at == now
        &&& q.handshake.unwrap().deadline == spec_deadline(now)
        &&& spec_initiation_state(q.handshake.unwrap().hs, info, p.info.peer_pubkey@)
        &&& q.last_mac1.is_some()
        &&& q.last_mac1.unwrap()@ == r->Send_packet.subrange(
            INITIATION_BODY_LEN as int,
            INITIATION_BODY_LEN + MAC_LEN,
        )
    } else {
        q.handshake == p.handshake && q.last_mac1 == p.last_mac1
    }
}

/// The session in `slot` stays: where it is not three `REJECT_AFTER_TIME`
/// old at `now`, and no session of the peer that is goes by its index, it
/// is still there.
pub open spec fn session_kept(p: PeerState, q: PeerState, slot: Slot, now: u64) -> bool {
    p.transport(slot).is_some() && !p.transport(slot).unwrap().spec_should_delete(now) && !expired_key(
        p,
        p.transport(slot).unwrap().spec_self_id().spec_key(),
        now,
    ) ==> q.transport(slot).is_some() && p.transport(slot).unwrap().same_session(
        &q.transport(slot).unwrap(),
    )
}

/// `after` is the session in `slot` of the peer once a tick at `now` has
/// passed over it: where the session owed a keepalive and the peer's endpoint
/// is known, it has tried to send; otherwise it is as it was.
pub open spec fn session_ticked(p: PeerState, slot: Slot, after: Transport, now: u64) -> bool {
    &&& p.transport(slot).is_some()
    &&& if p.info.endpoint.is_some() && p.transport(slot).unwrap().spec_should_keepalive() {
        p.transport(slot).unwrap().kept_alive(&after, now)
    } else {
        after == p.transport(slot).unwrap()
    }
}

/// Every session that the peer holds after a tick at `now` is the session
/// that was in its place before, with the tick passed over it.
pub open spec fn sessions_ticked(p: PeerState, q: PeerState, now: u64) -> bool {
    &&& q.primary_transport matches Some(t) ==> session_ticked(p, Slot::Primary, t, now)
    &&& q.secondary_transport matches Some(t) ==> session_ticked(p, Slot::Secondary, t, now)
}

/// An index as a number is the number that its bytes make.
pub proof fn lemma_key_of(id: Id)
    ensures
        id.spec_key() == Id::spec_key_of(id@),
        id@.len() == 4,
{
}

/// The passing of time composes.
pub proof fn lemma_aged_transitive(a: PeerState, b: PeerState, c: PeerState)
    requires
        aged(a, b),
        aged(b, c),
    ensures
        aged(a, c),
{
}

/// What a tick of the maintenance clock gives back.
pub struct Tick {
    /// The keepalives to send.
    pub send: Vec<Datagram>,
    /// For each peer, in the order of the peers, what became of the
    /// handshake that the tick tried to start for it: the initiation to
    /// send, or the reason why none was started; `Done` where none was tried.
    pub rekeys: Vec<Reaction>,
}

/// The entry of the index with number `k` is one that a tick at `now`
/// leaves alone: it leads to a peer that goes by `k`, and no session of any
/// peer that is three `REJECT_AFTER_TIME` old goes by `k`.
pub open spec fn entry_at_rest(peers: Seq<PeerState>, m: Map<u32, usize>, k: u32, now: u64) -> bool {
    &&& m.contains_key(k)
    &&& 0 <= m[k] < peers.len()
    &&& peers[m[k] as int].has_key(k)
    &&& no_expired_key(peers, k, now)
}

impl WgState {
    /// One tick of the maintenance clock.
    ///
    /// Entries of the index map whose peers do not go by their indices are
    /// removed. Then, for each peer and each of its sessions: one that is
    /// three `REJECT_AFTER_TIME` old is dropped with its index; otherwise
    /// one that owes a keepalive sends an empty message; otherwise, where it
    /// is the primary one, asks for a new key and no handshake is under way,
    /// a handshake is started. Last, a peer forgets whatever goes by an
    /// index that the index map does not lead back to it from.
    ///
    /// After it the index map and the peers agree in both directions, and no
    /// session that should be deleted is left. Every keepalive that was owed
    /// and could be sent is among those to send. A handshake was tried for
    /// exactly the peers whose primary session asked for one, and what
    /// became of each is told. An entry of the index map at rest stays,
    /// unless a handshake started in this tick has taken its index; with it
    /// stay the young sessions and the handshake that go by it.
    pub fn maintain(&mut self, now: u64) -> (tick: Tick)
        requires
            old(self).wf(),
        ensures
            final(self).wf(),
            final(self).all_aged(old(self)),
            final(self).ids_claimed(),
            final(self).no_leaks(),
            forall|j: int| 0 <= j < final(self).peers().len() ==> settled(#[trigger] final(self).peers()[j], now),
            forall|j: int|
                0 <= j < old(self).peers().len() && owes_keepalive(
                    #[trigger] old(self).peers()[j],
                    Slot::Primary,
                    now,
                ) ==> keepalive_sent(tick.send@, 0, old(self).peers()[j], Slot::Primary),
            forall|j: int|
                0 <= j < old(self).peers().len() && owes_keepalive(
                    #[trigger] old(self).peers()[j],
                    Slot::Secondary,
                    now,
                ) && !(old(self).peers()[j].primary_transport matches Some(t) && t.spec_should_delete(
                    now,
                )) ==> keepalive_sent(tick.send@, 0, old(self).peers()[j], Slot::Secondary),
            forall|n: int|
                0 <= n < tick.send@.len() ==> some_owed_keepalive(
                    #[trigger] tick.send@[n],
                    old(self).peers(),
                    now,
                ),
            forall|j: int|
                0 <= j < old(self).peers().len() ==> sessions_ticked(
                    old(self).peers()[j],
                    #[trigger] final(self).peers()[j],
                    now,
                ),
            tick.rekeys@.len() == old(self).peers().len(),
            forall|j: int|
                0 <= j < old(self).peers().len() ==> if spec_rekey_tried(
                    #[trigger] old(self).peers()[j],
                    now,
                ) {
                    rekey_reaction(old(self).peers()[j], now, tick.rekeys@[j]@)
                } else {
                    tick.rekeys@[j]@ is Done
                },
            forall|j: int|
                0 <= j < old(self).peers().len() ==> old(self).rekey_settled(
                    final(self),
                    j,
                    now,
                    (#[trigger] tick.rekeys@[j])@,
                ),
            forall|k: u32|
                entry_at_rest(old(self).peers(), old(self).id_map(), k, now) && no_new_key(tick.rekeys@, k)
                    ==> (#[trigger] final(self).id_map().contains_key(k)) && final(self).id_map()[k]
                    == old(self).id_map()[k],
            forall|j: int, slot: Slot|
                0 <= j < old(self).peers().len() && (#[trigger] old(self).peers()[j].transport(
                    slot,
                )).is_some() && !old(self).peers()[j].transport(slot).unwrap().spec_should_delete(now)
                    && old(self).stays_put(
                    j,
                    old(self).peers()[j].transport(slot).unwrap().spec_self_id().spec_key(),
                    now,
                    tick.rekeys@,
                ) ==> final(self).peers()[j].transport(slot).is_some() && old(self).peers()[j].transport(
                    slot,
                ).unwrap().same_session(&final(self).peers()[j].transport(slot).unwrap())
                    && final(self).id_map().contains_key(
                    old(self).peers()[j].transport(slot).unwrap().spec_self_id().spec_key(),
                ) && final(self).id_map()[old(self).peers()[j].transport(
                    slot,
                ).unwrap().spec_self_id().spec_key()] == j,
            forall|j: int|
                0 <= j < old(self).peers().len() && (#[trigger] old(self).peers()[j]).handshake.is_some()
                    && old(self).stays_put(
                    j,
                    old(self).peers()[j].handshake.unwrap().self_id.spec_key(),
                    now,
                    tick.rekeys@,
                ) ==> final(self).peers()[j].handshake == old(self).peers()[j].handshake
                    && final(self).id_map().contains_key(
                    old(self).peers()[j].handshake.unwrap().self_id.spec_key(),
                ) && final(self).id_map()[old(self).peers()[j].handshake.unwrap().self_id.spec_key()]
                    == j,
    {
        self.repair_leaks();
        let mut out: Vec<Datagram> = Vec::new();
        let mut rekeys: Vec<Reaction> = Vec::new();
        let mut i: usize = 0;
        while i < self.peers.len()
            invariant
                self.wf(),
                self.all_aged(old(self)),
                self.no_leaks(),
                i <= self.peers().len(),
                rekeys@.len() == i,
                forall|n: int|
                    0 <= n < out@.len() ==> some_owed_keepalive(#[trigger] out@[n], old(self).peers(), now),
                forall|j: int| 0 <= j < i ==> settled(#[trigger] self.peers()[j], now),
                forall|j: int|
                    i <= j < self.peers().len() ==> #[trigger] self.peers()[j] == old(self).peers()[j],
                forall|j: int|
                    0 <= j < i && owes_keepalive(#[trigger] old(self).peers()[j], Slot::Primary, now)
                        ==> keepalive_sent(out@, 0, old(self).peers()[j], Slot::Primary),
                forall|j: int|
                    0 <= j < i && owes_keepalive(#[trigger] old(self).peers()[j], Slot::Secondary, now)
                        && !(old(self).peers()[j].primary_transport matches Some(t)
                        && t.spec_should_delete(now)) ==> keepalive_sent(
                        out@,
                        0,
                        old(self).peers()[j],
                        Slot::Secondary,
                    ),
                forall|j: int|
                    0 <= j < i ==> if spec_rekey_tried(#[trigger] old(self).peers()[j], now) {
                        rekey_reaction(old(self).peers()[j], now, rekeys@[j]@)
                    } else {
                        rekeys@[j]@ is Done
                    },
                forall|j: int|
                    0 <= j < i ==> rekey_left(
                        old(self).peers()[j],
                        #[trigger] self.peers()[j],
                        old(self).info(),
                        now,
                        rekeys@[j]@,
                    ) && session_kept(old(self).peers()[j], self.peers()[j], Slot::Primary, now)
                        && session_kept(old(self).peers()[j], self.peers()[j], Slot::Secondary, now)
                        && sessions_ticked(old(self).peers()[j], self.peers()[j], now),
                forall|k: u32|
                    entry_at_rest(old(self).peers(), old(self).id_map(), k, now) && no_new_key(rekeys@, k)
                        ==> (#[trigger] self.id_map().contains_key(k)) && self.id_map()[k] == old(self).id_map()[k],
            decreases self.peers().len() - i,
        {
            let ghost before = *self;
            let ghost sent = out@;
            let ghost tried = rekeys@;
            let r = self.maintain_peer(i, now, &mut out);
            rekeys.push(r);
            proof {
                assert(before.peers()[i as int] == old(self).peers()[i as int]);
                assert(rekeys@[i as int] == r);
                assert forall|n: int| 0 <= n < out@.len() implies some_owed_keepalive(
                    #[trigger] out@[n],
                    old(self).peers(),
                    now,
                ) by {
                    if n < sent.len() {
                        assert(out@.take(sent.len() as int)[n] == sent[n]);
                        assert(out@[n] == sent[n]);
                        assert(some_owed_keepalive(sent[n], old(self).peers(), now));
                    } else {
                        assert(owed_keepalive(out@[n], old(self).peers()[i as int], now));
                    }
                }
                assert forall|j: int| 0 <= j < i implies #[trigger] rekeys@[j] == tried[j] by {}
                assert forall|j: int, slot: Slot|
                    0 <= j < old(self).peers().len() && keepalive_sent(
                        sent,
                        0,
                        old(self).peers()[j],
                        slot,
                    ) implies keepalive_sent(out@, 0, old(self).peers()[j], slot) by {
                    let n = choose|n: int|
                        0 <= n < sent.len() && is_keepalive_of(
                            #[trigger] sent[n],
                            old(self).peers()[j],
                            slot,
                        );
                    assert(out@.take(sent.len() as int)[n] == sent[n]);
                    assert(out@[n] == sent[n]);
                }
                assert forall|j: int|
                    i + 1 <= j < self.peers().len() implies #[trigger] self.peers()[j] == old(self).peers()[j] by {
                    assert(self.peers()[j] == before.peers()[j]);
                }
                assert forall|j: int| 0 <= j < self.peers().len() implies aged(
                    old(self).peers()[j],
                    #[trigger] self.peers()[j],
                ) by {
                    assert(aged(before.peers()[j], self.peers()[j]));
                    lemma_aged_transitive(old(self).peers()[j], before.peers()[j], self.peers()[j]);
                }
                assert forall|j: int| 0 <= j < i + 1 implies settled(#[trigger] self.peers()[j], now) by {
                    if j < i {
                        assert(settled(before.peers()[j], now));
                        assert(self.peers()[j].primary_transport == before.peers()[j].primary_transport);
                    }
                }
                assert forall|j: int| 0 <= j < i + 1 implies if spec_rekey_tried(
                    #[trigger] old(self).peers()[j],
                    now,
                ) {
                    rekey_reaction(old(self).peers()[j], now, rekeys@[j]@)
                } else {
                    rekeys@[j]@ is Done
                } by {
                    if j < i {
                        assert(rekeys@[j] == tried[j]);
                    }
                }
                assert forall|j: int| 0 <= j < i + 1 implies rekey_left(
                    old(self).peers()[j],
                    #[trigger] self.peers()[j],
                    old(self).info(),
                    now,
                    rekeys@[j]@,
                ) && session_kept(old(self).peers()[j], self.peers()[j], Slot::Primary, now)
                    && session_kept(old(self).peers()[j], self.peers()[j], Slot::Secondary, now)
                    && sessions_ticked(old(self).peers()[j], self.peers()[j], now) by {
                    if j < i {
                        assert(rekeys@[j] == tried[j]);
                        assert(self.peers()[j] == before.peers()[j]);
                    }
                }
                assert forall|k: u32|
                    entry_at_rest(old(self).peers(), old(self).id_map(), k, now) && no_new_key(
                        rekeys@,
                        k,
                    ) implies (#[trigger] self.id_map().contains_key(k)) && self.id_map()[k] == old(self).id_map()[k] by {
                    assert(!new_key(rekeys@[i as int]@, k));
                    assert forall|m: int| 0 <= m < tried.len() implies !new_key(
                        (#[trigger] tried[m])@,
                        k,
                    ) by {
                        assert(rekeys@[m] == tried[m]);
                    }
                    assert(no_new_key(tried, k));
                    assert(!expired_key(old(self).peers()[i as int], k, now));
                    assert(before.id_map().contains_key(k));
                }
            }
            i = i + 1;
        }
        let ghost s1 = *self;
        proof {
            assert forall|k: u32|
                entry_at_rest(old(self).peers(), old(self).id_map(), k, now) && no_new_key(rekeys@, k)
                    implies (#[trigger] s1.id_map().contains_key(k)) && s1.id_map()[k] == old(self).id_map()[k] by {
                assert(self.id_map().contains_key(k));
            }
        }
        let mut i: usize = 0;
        while i < self.peers.len()
            invariant
                self.wf(),
                self.all_aged(old(self)),
                self.no_leaks(),
                i <= self.peers().len(),
                self.peers().len() == s1.peers().len(),
                s1.peers().len() == old(self).peers().len(),
                rekeys@.len() == s1.peers().len(),
                self.id_map() == s1.id_map(),
                forall|k: u32|
                    entry_at_rest(old(self).peers(), old(self).id_map(), k, now) && no_new_key(rekeys@, k)
                        ==> (#[trigger] s1.id_map().contains_key(k)) && s1.id_map()[k] == old(self).id_map()[k],
                forall|j: int|
                    0 <= j < s1.peers().len() ==> rekey_left(
                        old(self).peers()[j],
                        #[trigger] s1.peers()[j],
                        old(self).info(),
                        now,
                        rekeys@[j]@,
                    ) && session_kept(old(self).peers()[j], s1.peers()[j], Slot::Primary, now)
                        && session_kept(old(self).peers()[j], s1.peers()[j], Slot::Secondary, now)
                        && sessions_ticked(old(self).peers()[j], s1.peers()[j], now),
                forall|j: int|
                    0 <= j < old(self).peers().len() ==> if spec_rekey_tried(
                        #[trigger] old(self).peers()[j],
                        now,
                    ) {
                        rekey_reaction(old(self).peers()[j], now, rekeys@[j]@)
                    } else {
                        rekeys@[j]@ is Done
                    },
                forall|j: int| 0 <= j < self.peers().len() ==> settled(#[trigger] self.peers()[j], now),
                forall|j: int, k: u32|
                    0 <= j < i && #[trigger] self.peers()[j].has_key(k) ==> self.id_map().contains_key(k)
                        && self.id_map()[k] == j,
                forall|j: int| i <= j < self.peers().len() ==> #[trigger] self.peers()[j] == s1.peers()[j],
                forall|j: int|
                    0 <= j < i ==> #[trigger] self.peers()[j] == spec_without_orphans(
                        s1.peers()[j],
                        s1.id_map(),
                        j as usize,
                    ),
            decreases self.peers().len() - i,
        {
            let ghost before = *self;
            self.drop_orphans_of(i);
            proof {
                assert forall|j: int| 0 <= j < self.peers().len() implies aged(
                    old(self).peers()[j],
                    #[trigger] self.peers()[j],
                ) by {
                    if j == i {
                        lemma_aged_transitive(old(self).peers()[j], before.peers()[j], self.peers()[j]);
                    } else {
                        assert(self.peers()[j] == before.peers()[j]);
                    }
                }
                assert forall|j: int| 0 <= j < self.peers().len() implies settled(
                    #[trigger] self.peers()[j],
                    now,
                ) by {
                    assert(settled(before.peers()[j], now));
                    if j != i {
                        assert(self.peers()[j] == before.peers()[j]);
                    }
                }
                assert forall|k: u32| #[trigger] self.id_map().contains_key(k) implies 0 <= self.id_map()[k]
                    < self.peers().len() && self.peers()[self.id_map()[k] as int].has_key(k) by {
                    let j = before.id_map()[k] as int;
                    assert(before.id_map().contains_key(k));
                    assert(before.peers()[j].has_key(k));
                    if j != i {
                        assert(self.peers()[j] == before.peers()[j]);
                    }
                }
                assert forall|j: int, k: u32|
                    0 <= j < i + 1 && #[trigger] self.peers()[j].has_key(
                        k,
                    ) implies self.id_map().contains_key(k) && self.id_map()[k] == j by {
                    if j < i {
                        assert(self.peers()[j] == before.peers()[j]);
                        assert(before.peers()[j].has_key(k));
                    }
                }
                assert forall|j: int| i + 1 <= j < self.peers().len() implies #[trigger] self.peers()[j]
                    == s1.peers()[j] by {
                    assert(self.peers()[j] == before.peers()[j]);
                }
                assert forall|j: int| 0 <= j < i + 1 implies #[trigger] self.peers()[j]
                    == spec_without_orphans(s1.peers()[j], s1.id_map(), j as usize) by {
                    if j < i {
                        assert(self.peers()[j] == before.peers()[j]);
                    } else {
                        assert(before.peers()[j] == s1.peers()[j]);
                    }
                }
            }
            i = i + 1;
        }
        proof {
            let m = self.id_map();
            assert forall|j: int| 0 <= j < old(self).peers().len() implies sessions_ticked(
                old(self).peers()[j],
                #[trigger] self.peers()[j],
                now,
            ) by {
                let mid = s1.peers()[j];
                assert(sessions_ticked(old(self).peers()[j], mid, now));
                assert(self.peers()[j] == spec_without_orphans(mid, m, j as usize));
            }
            assert forall|j: int| 0 <= j < old(self).peers().len() implies old(self).rekey_settled(
                self,
                j,
                now,
                (#[trigger] rekeys@[j])@,
            ) by {
                let p = old(self).peers()[j];
                let mid = s1.peers()[j];
                assert(rekey_left(p, mid, old(self).info(), now, rekeys@[j]@));
                assert(self.peers()[j] == spec_without_orphans(mid, m, j as usize));
                if rekeys@[j]@ is Send {
                    lemma_key_of(mid.handshake.unwrap().self_id);
                }
            }
            assert forall|j: int, slot: Slot|
                0 <= j < old(self).peers().len() && (#[trigger] old(self).peers()[j].transport(
                    slot,
                )).is_some() && !old(self).peers()[j].transport(slot).unwrap().spec_should_delete(now)
                    && old(self).stays_put(
                    j,
                    old(self).peers()[j].transport(slot).unwrap().spec_self_id().spec_key(),
                    now,
                    rekeys@,
                ) implies self.peers()[j].transport(slot).is_some() && old(self).peers()[j].transport(
                slot,
            ).unwrap().same_session(&self.peers()[j].transport(slot).unwrap())
                && self.id_map().contains_key(
                old(self).peers()[j].transport(slot).unwrap().spec_self_id().spec_key(),
            ) && self.id_map()[old(self).peers()[j].transport(slot).unwrap().spec_self_id().spec_key()]
                == j by {
                let p = old(self).peers()[j];
                let mid = s1.peers()[j];
                let k = p.transport(slot).unwrap().spec_self_id().spec_key();
                assert(p.has_key(k));
                assert(entry_at_rest(old(self).peers(), old(self).id_map(), k, now));
                assert(s1.id_map().contains_key(k) && s1.id_map()[k] == j);
                assert(m.contains_key(k) && m[k] == j);
                assert(!expired_key(p, k, now));
                assert(session_kept(p, mid, slot, now));
                assert(self.peers()[j] == spec_without_orphans(mid, m, j as usize));
            }
            assert forall|j: int|
                0 <= j < old(self).peers().len() && (#[trigger] old(self).peers()[j]).handshake.is_some()
                    && old(self).stays_put(
                    j,
                    old(self).peers()[j].handshake.unwrap().self_id.spec_key(),
                    now,
                    rekeys@,
                ) implies self.peers()[j].handshake == old(self).peers()[j].handshake
                && self.id_map().contains_key(old(self).peers()[j].handshake.unwrap().self_id.spec_key())
                && self.id_map()[old(self).peers()[j].handshake.unwrap().self_id.spec_key()] == j by {
                let p = old(self).peers()[j];
                let mid = s1.peers()[j];
                let k = p.handshake.unwrap().self_id.spec_key();
                assert(p.has_key(k));
                assert(entry_at_rest(old(self).peers(), old(self).id_map(), k, now));
                assert(s1.id_map().contains_key(k) && s1.id_map()[k] == j);
                assert(m.contains_key(k) && m[k] == j);
                assert(!spec_rekey_tried(p, now));
                assert(rekeys@[j]@ is Done);
                assert(rekey_left(p, mid, old(self).info(), now, rekeys@[j]@));
                assert(self.peers()[j] == spec_without_orphans(mid, m, j as usize));
            }
        }
        Tick { send: out, rekeys }
    }

    /// The index with number `k`, which leads to peer `j`, is one that a tick
    /// at `now` with the reactions `rekeys` leaves where it is: the index
    /// map leads from it to `j`, no session of any peer that is three
    /// `REJECT_AFTER_TIME` old goes by it, and no handshake started in the
    /// tick has taken it.
    pub open spec fn stays_put(&self, j: int, k: u32, now: u64, rekeys: Seq<Reaction>) -> bool {
        &&& self.id_map().contains_key(k)
        &&& self.id_map()[k] == j
        &&& no_expired_key(self.peers(), k, now)
        &&& no_new_key(rekeys, k)
    }

    /// What a tick at `now` leaves of the handshake of peer `j` and of the
    /// MAC1 that it remembers, where `r` is what became of the handshake
    /// that the tick tried to start for it. With an initiation to send, the
    /// MAC1 is the initiation's, and the handshake is the one under the
    /// initiation's index, which lasts `REKEY_ATTEMPT_TIME` from `now`,
    /// unless the index map no longer leads back from that index, in which
    /// case there is none. Otherwise the MAC1 is as it was, and so is the
    /// handshake, unless the index map does not lead back from its index.
    pub open spec fn rekey_settled(&self, after: &WgState, j: int, now: u64, r: ReactionView) -> bool {
        let p = self.peers()[j];
        let q = after.peers()[j];
        if r is Send {
            let k = Id::spec_key_of(r->Send_packet.subrange(4, 8));
            &&& q.last_mac1.is_some()
            &&& q.last_mac1.unwrap()@ == r->Send_packet.subrange(
                INITIATION_BODY_LEN as int,
                INITIATION_BODY_LEN + MAC_LEN,
            )
            &&& if after.id_map().contains_key(k) && after.id_map()[k] == j {
                &&& q.handshake.is_some()
                &&& q.handshake.unwrap().self_id@ == r->Send_packet.subrange(4, 8)
                &&& q.handshake.unwrap().sent_at == now
                &&& q.handshake.unwrap().deadline == spec_deadline(now)
                &&& spec_initiation_state(q.handshake.unwrap().hs, self.info(), p.info.peer_pubkey@)
            } else {
                q.handshake.is_none()
            }
        } else {
            &&& q.last_mac1 == p.last_mac1
            &&& q.handshake == (if spec_owned(after.id_map(), p.handshake_key(), j as usize) {
                p.handshake
            } else {
                None
            })
        }
    }

    /// A response that is not dropped completes the handshake that waited
    /// for it, whatever else the state holds: the peer's primary session is
    /// an initiator's session under the handshake's index with the
    /// responder's index as the peer's, no handshake waits, the endpoint is
    /// where the response came from, the old primary session is the
    /// secondary one, and the index of the old secondary session has left
    /// the index map. The index map still leads from the handshake's index
    /// to the peer unless the old secondary session went by that very index,
    /// and the new primary session goes by another index than the old one
    /// unless the handshake's index was the old primary session's.
    pub proof fn lemma_response_completes(
        &self,
        after: &WgState,
        p: Seq<u8>,
        addr: Endpoint,
        now: u64,
        r: ReactionView,
    )
        requires
            self.handshake_resp_outcome(after, p, addr, now, r),
            r is Done,
        ensures
            self.spec_waiting_for(p).is_some(),
            ({
                let i = self.spec_waiting_for(p).unwrap() as int;
                let k = Id::spec_key_of(p.subrange(8, 12));
                let before = self.peers()[i];
                let now_peer = after.peers()[i];
                &&& before.handshake_key() == Some(k)
                &&& now_peer.primary_transport.is_some()
                &&& now_peer.primary_transport.unwrap().spec_self_id() == before.handshake.unwrap().self_id
                &&& now_peer.primary_transport.unwrap().spec_peer_id()@ == p.subrange(4, 8)
                &&& now_peer.primary_transport.unwrap().spec_is_initiator()
                &&& now_peer.primary_transport.unwrap().created() == now
                &&& now_peer.handshake.is_none()
                &&& now_peer.info.endpoint == Some(addr)
                &&& now_peer.secondary_transport == before.primary_transport
                &&& before.secondary_key() matches Some(ks) ==> !after.id_map().contains_key(ks)
                &&& before.secondary_key() != Some(k) ==> after.id_map().contains_key(k)
                    && after.id_map()[k] == i
                &&& before.primary_key().is_some() && before.primary_key() != Some(k)
                    ==> now_peer.primary_transport.unwrap().spec_self_id()
                    != before.primary_transport.unwrap().spec_self_id()
            }),
    {
        let i = self.spec_waiting_for(p).unwrap() as int;
        let before = self.peers()[i];
        if let Some(t) = before.primary_transport {
            Id::lemma_eq(before.handshake.unwrap().self_id, t.spec_self_id());
        }
    }

    /// Completion: once a response has completed the handshake of peer `i`,
    /// the peer's primary session is an initiator's session under the
    /// handshake's index, no handshake waits, the peer's endpoint is where
    /// the response came from, and the index map still leads from the index
    /// to the peer.
    pub proof fn lemma_handshake_completion(
        &self,
        after: &WgState,
        i: int,
        peer_id: Id,
        addr: Endpoint,
        now: u64,
    )
        requires
            self.completed(after, i, peer_id, addr, now),
            self.ids_claimed(),
            self.peers()[i].distinct_keys(),
        ensures
            after.peers()[i].primary_transport.is_some(),
            after.peers()[i].primary_transport.unwrap().spec_self_id() == self.peers()[i].handshake.unwrap().self_id,
            after.peers()[i].primary_transport.unwrap().spec_peer_id() == peer_id,
            after.peers()[i].primary_transport.unwrap().spec_is_initiator(),
            after.peers()[i].primary_transport.unwrap().created() == now,
            after.peers()[i].handshake.is_none(),
            after.peers()[i].info.endpoint == Some(addr),
            after.id_map().contains_key(self.peers()[i].handshake.unwrap().self_id.spec_key()),
            after.id_map()[self.peers()[i].handshake.unwrap().self_id.spec_key()] == i,
    {
        let p = self.peers()[i];
        let k = p.handshake.unwrap().self_id.spec_key();
        assert(p.has_key(k));
    }

    /// Rotation on rekey: once a response has completed the handshake of
    /// peer `i`, the new primary session goes by another index than the old
    /// one, the old primary session is the secondary one, and the old
    /// secondary session is gone, its index no longer in the index map.
    pub proof fn lemma_rekey_rotation(&self, after: &WgState, i: int, peer_id: Id, addr: Endpoint, now: u64)
        requires
            self.completed(after, i, peer_id, addr, now),
            self.peers()[i].distinct_keys(),
        ensures
            after.peers()[i].secondary_transport == self.peers()[i].primary_transport,
            self.peers()[i].primary_transport matches Some(t) ==> after.peers()[i].primary_transport.unwrap().spec_self_id()
                != t.spec_self_id(),
            self.peers()[i].secondary_transport matches Some(t) ==> !after.id_map().contains_key(
                t.spec_self_id().spec_key(),
            ) && after.peers()[i].primary_transport.unwrap().spec_self_id() != t.spec_self_id()
                && (after.peers()[i].secondary_transport matches Some(u) ==> u.spec_self_id()
                != t.spec_self_id()),
    {
        let p = self.peers()[i];
        let h = p.handshake.unwrap().self_id;
        if let Some(t) = p.primary_transport {
            Id::lemma_eq(h, t.spec_self_id());
            if let Some(u) = p.secondary_transport {
                Id::lemma_eq(t.spec_self_id(), u.spec_self_id());
            }
        }
        if let Some(u) = p.secondary_transport {
            Id::lemma_eq(h, u.spec_self_id());
        }
    }

    /// Endpoint updates: a transport message that authenticates makes its
    /// source the endpoint of the peer whose session it came under, and of
    /// no other; where its source is that peer's endpoint already, the
    /// peer's configuration is as it was. One that does not authenticate
    /// changes no endpoint.
    pub proof fn lemma_endpoint_update(
        &self,
        after: &WgState,
        p: Seq<u8>,
        addr: Endpoint,
        now: u64,
        r: ReactionView,
    )
        requires
            self.transport_outcome(after, p, addr, now, r),
        ensures
            after.peers().len() == self.peers().len(),
            match self.spec_authentic(p, now) {
                None => after.peers() == self.peers(),
                Some((i, s, pkt)) => {
                    &&& after.peers()[i as int].info.endpoint == Some(addr)
                    &&& self.peers()[i as int].info.endpoint == Some(addr) ==> after.peers()[i as int].info
                        == self.peers()[i as int].info
                    &&& forall|j: int|
                        0 <= j < self.peers().len() && j != i ==> (#[trigger] after.peers()[j]).info
                            == self.peers()[j].info
                },
            },
    {
    }

    /// The reverse-path filter: a transport message is written to the device
    /// only where it authenticates under a session of a peer and the source
    /// address of its inner packet routes back to that same peer.
    pub proof fn lemma_reverse_path_filter(&self, p: Seq<u8>, now: u64)
        requires
            self.spec_transport_reaction(p, now) is WriteTun,
        ensures
            self.spec_authentic(p, now).is_some(),
            spec_parse_ip_packet(self.spec_authentic(p, now).unwrap().2).is_some(),
            self.spec_route(spec_parse_ip_packet(self.spec_authentic(p, now).unwrap().2).unwrap().src)
                == Some(self.spec_authentic(p, now).unwrap().0),
    {
    }
}

} // verus!

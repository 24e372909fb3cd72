//! What is remembered of one peer: its configuration, the handshake in
//! progress, and the current and the previous transport session.
use crate::wireguard::cookie::Cookie;
use crate::wireguard::handshake::Timestamp;
use crate::wireguard::noise::HS;
use crate::wireguard::transport::{Transport, TransportError, OVERHEAD};
use crate::wireguard::types::{Id, PeerInfo};
use std::collections::HashMap;
use vstd::prelude::*;

verus! {

/// A handshake that we initiated and that waits for its response.
pub struct Handshake {
    /// Our index, which the response will name.
    pub self_id: Id,
    /// The Noise state after the initiation was written.
    pub hs: HS,
    /// When the initiation was last sent.
    pub sent_at: u64,
    /// When the attempt is given up.
    pub deadline: u64,
}

/// One of the two places of a peer that hold a transport session.
#[derive(Debug, Copy, Clone, PartialEq, Eq, Structural)]
pub enum Slot {
    Primary,
    Secondary,
}

/// The other of the two places.
pub open spec fn other_slot(s: Slot) -> Slot {
    match s {
        Slot::Primary => Slot::Secondary,
        Slot::Secondary => Slot::Primary,
    }
}

/// The state of one peer.
pub struct PeerState {
    pub info: PeerInfo,
    pub last_handshake: Option<Timestamp>,
    pub cookie: Option<Cookie>,
    pub last_mac1: Option<[u8; 16]>,
    pub handshake: Option<Handshake>,
    pub primary_transport: Option<Transport>,
    pub secondary_transport: Option<Transport>,
}

/// Whether a timestamp is accepted after `last`: there was none before, or it
/// is strictly later.
pub open spec fn spec_timestamp_accepted(last: Option<Timestamp>, t: Timestamp) -> bool {
    match last {
        None => true,
        Some(l) => t.spec_later_than(&l),
    }
}

/// Timestamp monotonicity: once a timestamp was accepted and recorded, one
/// that is not later than it is refused.
pub proof fn lemma_timestamp_monotonic(last: Option<Timestamp>, first: Timestamp, second: Timestamp)
    requires
        spec_timestamp_accepted(last, first),
        !second.spec_later_than(&first),
    ensures
        !spec_timestamp_accepted(Some(first), second),
{
}

impl PeerState {
    /// A peer of which only the configuration is known.
    pub fn new(info: PeerInfo) -> (p: PeerState)
        ensures
            p.info == info,
            p.last_handshake.is_none(),
            p.cookie.is_none(),
            p.last_mac1.is_none(),
            p.handshake.is_none(),
            p.primary_transport.is_none(),
            p.secondary_transport.is_none(),
    {
        PeerState {
            info: info,
            last_handshake: None,
            last_mac1: None,
            cookie: None,
            handshake: None,
            primary_transport: None,
            secondary_transport: None,
        }
    }

    /// The index of the handshake in progress, as a number.
    pub open spec fn handshake_key(&self) -> Option<u32> {
        match self.handshake {
            Some(h) => Some(h.self_id.spec_key()),
            None => None,
        }
    }

    /// The index of the primary session, as a number.
    pub open spec fn primary_key(&self) -> Option<u32> {
        match self.primary_transport {
            Some(t) => Some(t.spec_self_id().spec_key()),
            None => None,
        }
    }

    /// The index of the secondary session, as a number.
    pub open spec fn secondary_key(&self) -> Option<u32> {
        match self.secondary_transport {
            Some(t) => Some(t.spec_self_id().spec_key()),
            None => None,
        }
    }

    /// The handshake or one of the sessions goes by the index with number `k`.
    pub open spec fn has_key(&self, k: u32) -> bool {
        self.handshake_key() == Some(k) || self.primary_key() == Some(k) || self.secondary_key()
            == Some(k)
    }

    /// The handshake or one of the sessions goes by `id`.
    pub open spec fn spec_has_id(&self, id: Id) -> bool {
        self.has_key(id.spec_key())
    }

    /// No two of the handshake and the sessions go by the same index.
    pub open spec fn distinct_keys(&self) -> bool {
        &&& self.handshake_key().is_some() ==> self.handshake_key() != self.primary_key()
            && self.handshake_key() != self.secondary_key()
        &&& self.primary_key().is_some() ==> self.primary_key() != self.secondary_key()
    }

    /// The place of the session that goes by the index with number `k`: the
    /// primary one first.
    pub open spec fn spec_slot_key(&self, k: u32) -> Option<Slot> {
        if self.primary_key() == Some(k) {
            Some(Slot::Primary)
        } else if self.secondary_key() == Some(k) {
            Some(Slot::Secondary)
        } else {
            None
        }
    }

    /// The place of the session that goes by `id`: the primary one first.
    pub open spec fn spec_slot(&self, id: Id) -> Option<Slot> {
        self.spec_slot_key(id.spec_key())
    }

    /// The session in a place.
    pub open spec fn transport(&self, slot: Slot) -> Option<Transport> {
        match slot {
            Slot::Primary => self.primary_transport,
            Slot::Secondary => self.secondary_transport,
        }
    }

    /// All but the sessions is the same.
    pub open spec fn same_but_transports(&self, other: &PeerState) -> bool {
        &&& self.info == other.info
        &&& self.last_handshake == other.last_handshake
        &&& self.cookie == other.cookie
        &&& self.last_mac1 == other.last_mac1
        &&& self.handshake == other.handshake
    }

    /// Rotation: `t` becomes the primary session, the primary one the
    /// secondary, and the secondary one is dropped, its index leaving the
    /// index map.
    pub fn rotate_transport(&mut self, t: Transport, id_map: &mut HashMap<u32, usize>)
        ensures
            final(self).primary_transport == Some(t),
            final(self).secondary_transport == old(self).primary_transport,
            final(self).same_but_transports(old(self)),
            final(id_map)@ == (match old(self).secondary_key() {
                Some(k) => old(id_map)@.remove(k),
                None => old(id_map)@,
            }),
    {
        broadcast use vstd::std_specs::hash::group_hash_axioms;

        if self.secondary_transport.is_some() {
            let k: u32 = self.secondary_transport.take().unwrap().get_self_id().key();
            id_map.remove(&k);
        }
        self.secondary_transport = self.primary_transport.take();
        self.primary_transport = Some(t);
    }

    /// What `remove_peer_by_id` leaves of a session: nothing where it goes by `id`.
    pub open spec fn spec_without(t: Option<Transport>, id: Id) -> Option<Transport> {
        match t {
            Some(x) => if x.spec_self_id() == id {
                None
            } else {
                t
            },
            None => None,
        }
    }

    /// Drop the sessions that go by `id`.
    pub fn remove_peer_by_id(&mut self, id: Id)
        ensures
            final(self).primary_transport == PeerState::spec_without(old(self).primary_transport, id),
            final(self).secondary_transport == PeerState::spec_without(
                old(self).secondary_transport,
                id,
            ),
            final(self).same_but_transports(old(self)),
    {
        let drop_primary = match &self.primary_transport {
            Some(t) => t.get_self_id().same(&id),
            None => false,
        };
        if drop_primary {
            self.primary_transport = None;
        }
        let drop_secondary = match &self.secondary_transport {
            Some(t) => t.get_self_id().same(&id),
            None => false,
        };
        if drop_secondary {
            self.secondary_transport = None;
        }
    }

    /// The place of the session that goes by `id`: the primary one first.
    pub fn find_slot(&self, id: Id) -> (r: Option<Slot>)
        ensures
            r == self.spec_slot(id),
            r matches Some(s) ==> self.transport(s).is_some() && self.transport(
                s,
            ).unwrap().spec_self_id() == id,
    {
        if let Some(t) = &self.primary_transport {
            proof {
                Id::lemma_eq(t.spec_self_id(), id);
            }
            if t.get_self_id().same(&id) {
                return Some(Slot::Primary);
            }
        }
        if let Some(t) = &self.secondary_transport {
            proof {
                Id::lemma_eq(t.spec_self_id(), id);
            }
            if t.get_self_id().same(&id) {
                return Some(Slot::Secondary);
            }
        }
        None
    }

    /// The session that goes by `id`: the primary one first.
    pub fn find_transport_by_id(&self, id: Id) -> (r: Option<&Transport>)
        ensures
            match self.spec_slot(id) {
                Some(s) => r.is_some() && Some(*r.unwrap()) == self.transport(s),
                None => r.is_none(),
            },
    {
        match self.find_slot(id) {
            Some(Slot::Primary) => self.primary_transport.as_ref(),
            Some(Slot::Secondary) => self.secondary_transport.as_ref(),
            None => None,
        }
    }

    /// Whether the handshake or one of the sessions goes by `id`.
    pub fn has_id(&self, id: Id) -> (r: bool)
        ensures
            r == self.spec_has_id(id),
    {
        self.has_index(id.key())
    }

    /// Whether the handshake or one of the sessions goes by the index with
    /// number `k`.
    pub fn has_index(&self, k: u32) -> (r: bool)
        ensures
            r == self.has_key(k),
    {
        if let Some(h) = &self.handshake {
            if h.self_id.key() == k {
                return true;
            }
        }
        if let Some(t) = &self.primary_transport {
            if t.get_self_id().key() == k {
                return true;
            }
        }
        if let Some(t) = &self.secondary_transport {
            if t.get_self_id().key() == k {
                return true;
            }
        }
        false
    }

    /// Whether a handshake timestamp is later than any accepted before.
    pub fn timestamp_ok(&self, t: Timestamp) -> (ok: bool)
        ensures
            ok == spec_timestamp_accepted(self.last_handshake, t),
    {
        match &self.last_handshake {
            None => true,
            Some(l) => t.later_than(l),
        }
    }

    /// Whether a handshake timestamp is later than any accepted before; if
    /// so it is recorded.
    pub fn accept_timestamp(&mut self, t: Timestamp) -> (ok: bool)
        ensures
            ok == spec_timestamp_accepted(old(self).last_handshake, t),
            ok ==> final(self).last_handshake == Some(t),
            !ok ==> final(self).last_handshake == old(self).last_handshake,
            final(self).info == old(self).info,
            final(self).cookie == old(self).cookie,
            final(self).last_mac1 == old(self).last_mac1,
            final(self).handshake == old(self).handshake,
            final(self).primary_transport == old(self).primary_transport,
            final(self).secondary_transport == old(self).secondary_transport,
    {
        let ok = match &self.last_handshake {
            None => true,
            Some(l) => t.later_than(l),
        };
        if ok {
            self.last_handshake = Some(t);
        }
        ok
    }

    /// Seal an empty message with the session in `slot` where it owes a
    /// keepalive; `None` where there is no session or none is owed.
    pub fn keepalive(&mut self, slot: Slot, now: u64) -> (r: Option<Result<Vec<u8>, TransportError>>)
        ensures
            final(self).same_but_transports(old(self)),
            final(self).transport(other_slot(slot)) == old(self).transport(other_slot(slot)),
            match old(self).transport(slot) {
                None => r.is_none() && final(self).transport(slot).is_none(),
                Some(t) => if t.spec_should_keepalive() {
                    r.is_some() && final(self).transport(slot).is_some() && t.encrypt_outcome(
                        &final(self).transport(slot).unwrap(),
                        Seq::<u8>::empty(),
                        now,
                        r.unwrap(),
                    )
                } else {
                    r.is_none() && final(self).transport(slot) == Some(t)
                },
            },
    {
        let empty: [u8; 0] = [];
        assert(empty@ =~= Seq::<u8>::empty());
        match slot {
            Slot::Primary => match &mut self.primary_transport {
                Some(t) => if t.should_keepalive() {
                    Some(t.encrypt(empty.as_slice(), now))
                } else {
                    None
                },
                None => None,
            },
            Slot::Secondary => match &mut self.secondary_transport {
                Some(t) => if t.should_keepalive() {
                    Some(t.encrypt(empty.as_slice(), now))
                } else {
                    None
                },
                None => None,
            },
        }
    }

    /// Whether the session in `slot` owes a keepalive.
    pub open spec fn spec_keepalive_owed(&self, slot: Slot) -> bool {
        self.transport(slot).is_some() && self.transport(slot).unwrap().spec_should_keepalive()
    }

    /// Whether the session in `slot` owes a keepalive.
    pub fn keepalive_owed(&self, slot: Slot) -> (r: bool)
        ensures
            r == self.spec_keepalive_owed(slot),
    {
        let t = match slot {
            Slot::Primary => &self.primary_transport,
            Slot::Secondary => &self.secondary_transport,
        };
        match t {
            Some(t) => t.should_keepalive(),
            None => false,
        }
    }

    /// The index of the session in `slot` where that session is three
    /// `REJECT_AFTER_TIME` old at `now`.
    pub fn expired(&self, slot: Slot, now: u64) -> (r: Option<Id>)
        ensures
            r == (match self.transport(slot) {
                Some(t) => if t.spec_should_delete(now) {
                    Some(t.spec_self_id())
                } else {
                    None
                },
                None => None,
            }),
    {
        let t = match slot {
            Slot::Primary => &self.primary_transport,
            Slot::Secondary => &self.secondary_transport,
        };
        match t {
            Some(t) => if t.should_delete(now) {
                Some(t.get_self_id())
            } else {
                None
            },
            None => None,
        }
    }

    /// Whether the primary session asks for a new handshake at `now` and
    /// none is under way.
    pub open spec fn spec_rekey_due(&self, now: u64) -> bool {
        self.primary_transport.is_some() && self.primary_transport.unwrap().spec_should_rekey(now)
            && self.handshake.is_none()
    }

    /// Whether the primary session asks for a new handshake at `now` and
    /// none is under way.
    pub fn rekey_due(&self, now: u64) -> (r: bool)
        ensures
            r == self.spec_rekey_due(now),
    {
        match &self.primary_transport {
            Some(t) => t.should_rekey(now) && self.handshake.is_none(),
            None => false,
        }
    }

    /// Seal `msg` with the primary session; `None` where there is none.
    pub fn encrypt(&mut self, msg: &[u8], now: u64) -> (r: Option<Result<Vec<u8>, TransportError>>)
        requires
            msg@.len() + OVERHEAD <= usize::MAX,
        ensures
            final(self).same_but_transports(old(self)),
            final(self).secondary_transport == old(self).secondary_transport,
            match old(self).primary_transport {
                None => r.is_none() && final(self).primary_transport.is_none(),
                Some(t) => r.is_some() && final(self).primary_transport.is_some() && t.encrypt_outcome(
                    &final(self).primary_transport.unwrap(),
                    msg@,
                    now,
                    r.unwrap(),
                ),
            },
    {
        match &mut self.primary_transport {
            Some(t) => Some(t.encrypt(msg, now)),
            None => None,
        }
    }

    /// Open a transport message with the session that goes by `id`, the
    /// primary one first; `None` where no session does.
    pub fn decrypt(&mut self, id: Id, msg: &[u8], now: u64) -> (r: Option<Result<Vec<u8>, TransportError>>)
        ensures
            final(self).same_but_transports(old(self)),
            match old(self).spec_slot(id) {
                None => r.is_none() && final(self).primary_transport == old(self).primary_transport
                    && final(self).secondary_transport == old(self).secondary_transport,
                Some(Slot::Primary) => r.is_some() && final(self).primary_transport.is_some() && old(
                    self,
                ).primary_transport.unwrap().decrypt_outcome(
                    &final(self).primary_transport.unwrap(),
                    msg@,
                    now,
                    r.unwrap(),
                ) && final(self).secondary_transport == old(self).secondary_transport,
                Some(Slot::Secondary) => r.is_some() && final(self).secondary_transport.is_some()
                    && old(self).secondary_transport.unwrap().decrypt_outcome(
                    &final(self).secondary_transport.unwrap(),
                    msg@,
                    now,
                    r.unwrap(),
                ) && final(self).primary_transport == old(self).primary_transport,
            },
    {
        match self.find_slot(id) {
            None => None,
            Some(Slot::Primary) => match &mut self.primary_transport {
                Some(t) => Some(t.decrypt(msg, now)),
                None => None,
            },
            Some(Slot::Secondary) => match &mut self.secondary_transport {
                Some(t) => Some(t.decrypt(msg, now)),
                None => None,
            },
        }
    }
}

} // verus!

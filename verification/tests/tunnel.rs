use titun::wireguard::controller::{Datagram, Dropped, Reaction, WgState};
use titun::wireguard::cookie::{check_macs, cookie_reply, verify_mac2, MacVerdict};
use titun::wireguard::handshake::{HandshakeError, INITIATION_LEN, RESPONSE_LEN};
use titun::wireguard::transport::TransportError;
use titun::wireguard::types::{
    Endpoint, Id, IpAddress, PeerInfo, WgInfo, KEEPALIVE_TIMEOUT, NANOS_PER_SEC, REJECT_AFTER_TIME,
    REKEY_AFTER_TIME, REKEY_ATTEMPT_TIME, REKEY_TIMEOUT,
};

const SEC: u64 = NANOS_PER_SEC;

fn v4(a: u8, b: u8, c: u8, d: u8) -> u32 {
    u32::from_be_bytes([a, b, c, d])
}

fn endpoint(last: u8, port: u16) -> Endpoint {
    Endpoint { ip: IpAddress::V4(v4(192, 0, 2, last)), port, flowinfo: 0, scope_id: 0 }
}

fn key(seed: u8) -> [u8; 32] {
    let mut k = [seed; 32];
    k[0] &= 248;
    k[31] &= 127;
    k[31] |= 64;
    k
}

/// An IPv4 packet of `len` bytes from `src` to `dst`.
fn ipv4(src: u32, dst: u32, len: usize) -> Vec<u8> {
    let mut p = vec![0u8; len];
    p[0] = 0x45;
    p[2..4].copy_from_slice(&(len as u16).to_be_bytes());
    p[8] = 64;
    p[9] = 1;
    p[12..16].copy_from_slice(&src.to_be_bytes());
    p[16..20].copy_from_slice(&dst.to_be_bytes());
    for i in 20..len {
        p[i] = i as u8;
    }
    p
}

struct Pair {
    a: WgState,
    b: WgState,
    addr_a: Endpoint,
    addr_b: Endpoint,
    ip_a: u32,
    ip_b: u32,
}

fn pair_with(psk: Option<[u8; 32]>) -> Pair {
    sodiumoxide::init().unwrap();
    let info_a = WgInfo::new(psk, key(1));
    let info_b = WgInfo::new(psk, key(2));
    let addr_a = endpoint(1, 7001);
    let addr_b = endpoint(2, 7002);
    let ip_a = v4(10, 0, 0, 1);
    let ip_b = v4(10, 0, 0, 2);
    let peer_b = PeerInfo {
        peer_pubkey: info_b.pubkey,
        endpoint: Some(addr_b),
        allowed_ips: vec![(IpAddress::V4(ip_b), 32)],
    };
    let peer_a = PeerInfo {
        peer_pubkey: info_a.pubkey,
        endpoint: None,
        allowed_ips: vec![(IpAddress::V4(ip_a), 32)],
    };
    Pair {
        a: WgState::new(info_a, &[peer_b]),
        b: WgState::new(info_b, &[peer_a]),
        addr_a,
        addr_b,
        ip_a,
        ip_b,
    }
}

/// Wait until the system clock shows a later time.
fn wait_for_clock() {
    let t = tai64::Tai64N::now();
    while tai64::Tai64N::now() <= t {}
}

fn pair() -> Pair {
    pair_with(None)
}

/// One tick of the maintenance clock: the keepalives, then the initiations.
fn tick(wg: &mut WgState, now: u64) -> Vec<Datagram> {
    let t = wg.maintain(now);
    assert_eq!(t.rekeys.len(), wg.peer_count());
    let mut out = t.send;
    for r in t.rekeys {
        match r {
            Reaction::Send { packet, to } => out.push(Datagram { packet, to }),
            Reaction::Done => {}
            Reaction::Dropped(d) => panic!("no handshake started: {:?}", d),
            Reaction::WriteTun { .. } => panic!("a packet for the device"),
        }
    }
    out
}

fn sent(r: Reaction) -> (Vec<u8>, Endpoint) {
    match r {
        Reaction::Send { packet, to } => (packet, to),
        Reaction::Dropped(d) => panic!("dropped: {:?}", d),
        Reaction::Done => panic!("nothing to send"),
        Reaction::WriteTun { .. } => panic!("a packet for the device"),
    }
}

fn written(r: Reaction) -> Vec<u8> {
    match r {
        Reaction::WriteTun { packet } => packet,
        Reaction::Dropped(d) => panic!("dropped: {:?}", d),
        Reaction::Done => panic!("nothing to write"),
        Reaction::Send { .. } => panic!("a datagram"),
    }
}

fn dropped(r: Reaction) -> Dropped {
    match r {
        Reaction::Dropped(d) => d,
        Reaction::Done => panic!("done"),
        Reaction::Send { .. } => panic!("a datagram"),
        Reaction::WriteTun { .. } => panic!("a packet for the device"),
    }
}

fn is_done(r: Reaction) -> bool {
    matches!(r, Reaction::Done)
}

/// Run a handshake that A starts at `now`; the initiation and the response.
fn shake(p: &mut Pair, now: u64) -> (Vec<u8>, Vec<u8>) {
    let (init, to) = sent(p.a.start_handshake(0, now));
    assert_eq!(to, p.addr_b);
    let (resp, to) = sent(p.b.udp_packet(&init, p.addr_a, now));
    assert_eq!(to, p.addr_a);
    assert!(is_done(p.a.udp_packet(&resp, p.addr_b, now)));
    (init, resp)
}

#[test]
fn handshake_happy_path() {
    let mut p = pair();
    let ping = ipv4(p.ip_a, p.ip_b, 84);

    // No session yet: the packet starts a handshake.
    let (init, to) = sent(p.a.tun_packet(&ping, 0));
    assert_eq!(init.len(), 148);
    assert_eq!(init.len(), INITIATION_LEN);
    assert_eq!(to, p.addr_b);
    assert_eq!(&init[0..4], &[1, 0, 0, 0]);
    assert_eq!(&init[132..148], &[0u8; 16]);
    let id_a = Id::from_slice(&init[4..8]);
    assert_eq!(p.a.peer_by_id(id_a), Some(0));
    assert!(p.a.peer(0).handshake.is_some());
    assert!(p.a.peer(0).primary_transport.is_none());

    // A second packet while the handshake is under way is lost.
    assert_eq!(dropped(p.a.tun_packet(&ping, 1)), Dropped::HandshakeInProgress);

    let (resp, to) = sent(p.b.udp_packet(&init, p.addr_a, 10));
    assert_eq!(resp.len(), 92);
    assert_eq!(resp.len(), RESPONSE_LEN);
    assert_eq!(to, p.addr_a);
    assert_eq!(&resp[0..4], &[2, 0, 0, 0]);
    assert_eq!(&resp[8..12], &init[4..8]);
    assert_eq!(&resp[76..92], &[0u8; 16]);
    let id_b = Id::from_slice(&resp[4..8]);
    assert_eq!(p.b.peer_by_id(id_b), Some(0));
    assert_eq!(p.b.peer(0).primary_transport.as_ref().unwrap().get_self_id(), id_b);
    assert_eq!(p.b.peer(0).primary_transport.as_ref().unwrap().get_peer_id(), id_a);
    assert_eq!(p.b.peer(0).info.endpoint, Some(p.addr_a));
    assert!(p.b.peer(0).last_handshake.is_some());

    assert!(is_done(p.a.udp_packet(&resp, p.addr_b, 20)));
    assert!(p.a.peer(0).handshake.is_none());
    assert_eq!(p.a.peer(0).primary_transport.as_ref().unwrap().get_self_id(), id_a);
    assert_eq!(p.a.peer(0).primary_transport.as_ref().unwrap().get_peer_id(), id_b);
    assert_eq!(p.a.peer_by_id(id_a), Some(0));

    // A ping of 84 bytes becomes a datagram of 116.
    let (wire, to) = sent(p.a.tun_packet(&ping, 30));
    assert_eq!(wire.len(), 116);
    assert_eq!(to, p.addr_b);
    assert_eq!(&wire[0..4], &[4, 0, 0, 0]);
    assert_eq!(&wire[4..8], id_b.as_slice());
    assert_eq!(&wire[8..16], &0u64.to_le_bytes());
    assert_ne!(&wire[16..100], &ping[..]);
    assert_eq!(written(p.b.udp_packet(&wire, p.addr_a, 40)), ping);

    // And back.
    let pong = ipv4(p.ip_b, p.ip_a, 84);
    let (wire, to) = sent(p.b.tun_packet(&pong, 50));
    assert_eq!(to, p.addr_a);
    assert_eq!(wire.len(), 116);
    assert_eq!(written(p.a.udp_packet(&wire, p.addr_b, 60)), pong);

    // The second message of A carries the counter 1.
    let (wire, _) = sent(p.a.tun_packet(&ping, 70));
    assert_eq!(&wire[8..16], &1u64.to_le_bytes());
}

#[test]
fn handshake_with_preshared_key() {
    let mut p = pair_with(Some([7u8; 32]));
    shake(&mut p, 0);
    let ping = ipv4(p.ip_a, p.ip_b, 60);
    let (wire, _) = sent(p.a.tun_packet(&ping, 1));
    assert_eq!(written(p.b.udp_packet(&wire, p.addr_a, 2)), ping);
}

#[test]
fn handshake_with_different_preshared_keys_fails() {
    sodiumoxide::init().unwrap();
    let mut p = pair_with(Some([7u8; 32]));
    let other = WgInfo::new(Some([8u8; 32]), key(2));
    let peer_a = PeerInfo {
        peer_pubkey: WgInfo::new(None, key(1)).pubkey,
        endpoint: None,
        allowed_ips: vec![(IpAddress::V4(p.ip_a), 32)],
    };
    p.b = WgState::new(other, &[peer_a]);
    let (init, _) = sent(p.a.start_handshake(0, 0));
    let (resp, _) = sent(p.b.udp_packet(&init, p.addr_a, 0));
    match dropped(p.a.udp_packet(&resp, p.addr_b, 0)) {
        Dropped::Handshake(HandshakeError::Noise(_)) => {}
        d => panic!("{:?}", d),
    }
    assert!(p.a.peer(0).handshake.is_some());
    assert!(p.a.peer(0).primary_transport.is_none());
}

#[test]
fn initiation_replayed_is_stale() {
    let mut p = pair();
    let (init, _) = shake(&mut p, 0);
    let before = p.b.peer(0).last_handshake;
    let id = p.b.peer(0).primary_transport.as_ref().unwrap().get_self_id();
    assert_eq!(dropped(p.b.udp_packet(&init, p.addr_a, 1)), Dropped::StaleTimestamp);
    assert_eq!(p.b.peer(0).last_handshake, before);
    assert_eq!(p.b.peer(0).primary_transport.as_ref().unwrap().get_self_id(), id);
    assert!(p.b.peer(0).secondary_transport.is_none());
}

#[test]
fn initiation_timestamps_increase() {
    let mut p = pair();
    shake(&mut p, 0);
    let first = p.b.peer(0).last_handshake.unwrap();
    wait_for_clock();
    shake(&mut p, 1);
    let second = p.b.peer(0).last_handshake.unwrap();
    assert!(second.later_than(&first));
    assert!(!first.later_than(&second));
    assert!(!first.later_than(&first));
}

#[test]
fn initiation_with_bad_length_or_mac_is_dropped() {
    let mut p = pair();
    let (init, _) = sent(p.a.start_handshake(0, 0));
    assert_eq!(dropped(p.b.udp_packet(&init[..147], p.addr_a, 0)), Dropped::BadLength);
    let mut longer = init.clone();
    longer.push(0);
    assert_eq!(dropped(p.b.udp_packet(&longer, p.addr_a, 0)), Dropped::BadLength);
    let mut forged = init.clone();
    forged[50] ^= 1;
    assert_eq!(
        dropped(p.b.udp_packet(&forged, p.addr_a, 0)),
        Dropped::Handshake(HandshakeError::Mac1)
    );
    let mut forged = init.clone();
    forged[120] ^= 1;
    assert_eq!(
        dropped(p.b.udp_packet(&forged, p.addr_a, 0)),
        Dropped::Handshake(HandshakeError::Mac1)
    );
    assert!(p.b.peer(0).primary_transport.is_none());
    assert!(p.b.peer(0).last_handshake.is_none());
    // Untouched, it still goes through.
    sent(p.b.udp_packet(&init, p.addr_a, 0));
}

#[test]
fn initiation_from_unknown_peer_is_dropped() {
    sodiumoxide::init().unwrap();
    let mut p = pair();
    let stranger = WgInfo::new(None, key(9));
    let peer_b = PeerInfo {
        peer_pubkey: WgInfo::new(None, key(2)).pubkey,
        endpoint: Some(p.addr_b),
        allowed_ips: vec![],
    };
    let mut c = WgState::new(stranger, &[peer_b]);
    let (init, _) = sent(c.start_handshake(0, 0));
    assert_eq!(dropped(p.b.udp_packet(&init, p.addr_a, 0)), Dropped::UnknownPeer);
}

#[test]
fn response_for_unknown_index_or_forged() {
    let mut p = pair();
    let (init, _) = sent(p.a.start_handshake(0, 0));
    let (resp, _) = sent(p.b.udp_packet(&init, p.addr_a, 0));
    let mut other = resp.clone();
    other[8] ^= 0xff;
    assert_eq!(dropped(p.a.udp_packet(&other, p.addr_b, 0)), Dropped::UnknownId);
    let mut forged = resp.clone();
    forged[20] ^= 1;
    assert_eq!(
        dropped(p.a.udp_packet(&forged, p.addr_b, 0)),
        Dropped::Handshake(HandshakeError::Mac1)
    );
    assert_eq!(
        dropped(p.a.udp_packet(&resp[..70], p.addr_b, 0)),
        Dropped::Handshake(HandshakeError::TooShort)
    );
    // A forged response has not spoiled the handshake.
    assert!(is_done(p.a.udp_packet(&resp, p.addr_b, 0)));
    // The handshake is over: the same response finds none.
    assert_eq!(dropped(p.a.udp_packet(&resp, p.addr_b, 0)), Dropped::NoHandshake);
}

#[test]
fn roaming() {
    let mut p = pair();
    shake(&mut p, 0);
    assert_eq!(p.b.peer(0).info.endpoint, Some(p.addr_a));
    let ping = ipv4(p.ip_a, p.ip_b, 84);
    let (wire, _) = sent(p.a.tun_packet(&ping, 1));
    let moved = endpoint(77, 4242);
    assert_eq!(written(p.b.udp_packet(&wire, moved, 2)), ping);
    assert_eq!(p.b.peer(0).info.endpoint, Some(moved));
    // Packets for the peer now go to the new address.
    let pong = ipv4(p.ip_b, p.ip_a, 84);
    let (_, to) = sent(p.b.tun_packet(&pong, 3));
    assert_eq!(to, moved);
}

#[test]
fn endpoint_update_is_idempotent_and_needs_authentication() {
    let mut p = pair();
    shake(&mut p, 0);
    let ping = ipv4(p.ip_a, p.ip_b, 84);
    let (wire, _) = sent(p.a.tun_packet(&ping, 1));
    // From the known address: no change.
    assert_eq!(written(p.b.udp_packet(&wire, p.addr_a, 2)), ping);
    assert_eq!(p.b.peer(0).info.endpoint, Some(p.addr_a));
    // A forged packet from elsewhere changes nothing.
    let (mut wire, _) = sent(p.a.tun_packet(&ping, 3));
    wire[40] ^= 1;
    let elsewhere = endpoint(99, 1);
    assert_eq!(
        dropped(p.b.udp_packet(&wire, elsewhere, 4)),
        Dropped::Transport(TransportError::Decryption)
    );
    assert_eq!(p.b.peer(0).info.endpoint, Some(p.addr_a));
    // A replayed one neither.
    let (wire, _) = sent(p.a.tun_packet(&ping, 5));
    assert_eq!(written(p.b.udp_packet(&wire, p.addr_a, 6)), ping);
    assert_eq!(
        dropped(p.b.udp_packet(&wire, elsewhere, 7)),
        Dropped::Transport(TransportError::Replay)
    );
    assert_eq!(p.b.peer(0).info.endpoint, Some(p.addr_a));
}

#[test]
fn replay() {
    let mut p = pair();
    shake(&mut p, 0);
    let ping = ipv4(p.ip_a, p.ip_b, 84);
    let (wire, _) = sent(p.a.tun_packet(&ping, SEC));
    assert_eq!(written(p.b.udp_packet(&wire, p.addr_a, 2 * SEC)), ping);
    assert_eq!(
        p.b.peer(0).primary_transport.as_ref().unwrap().get_last_recv(),
        Some(2 * SEC)
    );
    assert_eq!(
        dropped(p.b.udp_packet(&wire, p.addr_a, 3 * SEC)),
        Dropped::Transport(TransportError::Replay)
    );
    // The time of the last receipt has moved only once.
    assert_eq!(
        p.b.peer(0).primary_transport.as_ref().unwrap().get_last_recv(),
        Some(2 * SEC)
    );
}

#[test]
fn reordering_is_accepted() {
    let mut p = pair();
    shake(&mut p, 0);
    let ping = ipv4(p.ip_a, p.ip_b, 40);
    let mut wires = Vec::new();
    for _ in 0..10 {
        wires.push(sent(p.a.tun_packet(&ping, 1)).0);
    }
    for i in [9usize, 3, 7, 0, 1, 8, 2, 6, 5, 4] {
        assert_eq!(written(p.b.udp_packet(&wires[i], p.addr_a, 2)), ping);
    }
    for w in &wires {
        assert_eq!(
            dropped(p.b.udp_packet(w, p.addr_a, 3)),
            Dropped::Transport(TransportError::Replay)
        );
    }
}

#[test]
fn reverse_path_filter() {
    let mut p = pair();
    shake(&mut p, 0);
    // A's inner source is not among the addresses that B allows for A.
    let spoofed = ipv4(v4(10, 0, 0, 3), p.ip_b, 84);
    // A must first route it: destination B is fine.
    let (wire, _) = sent(p.a.tun_packet(&spoofed, 1));
    assert_eq!(dropped(p.b.udp_packet(&wire, endpoint(50, 5), 2)), Dropped::ReversePath);
    // Authenticated all the same: the endpoint follows.
    assert_eq!(p.b.peer(0).info.endpoint, Some(endpoint(50, 5)));
}

#[test]
fn keepalive_payload_is_not_written() {
    let mut p = pair();
    shake(&mut p, 0);
    let t = 11 * SEC;
    // B hears from A ten seconds after the session was made.
    let (wire, _) = sent(p.a.tun_packet(&ipv4(p.ip_a, p.ip_b, 84), t));
    written(p.b.udp_packet(&wire, p.addr_a, t));
    let out = tick(&mut p.b, t + SEC);
    assert_eq!(out.len(), 1);
    assert_eq!(out[0].packet.len(), 32);
    assert_eq!(out[0].to, p.addr_a);
    // A accepts it and writes nothing.
    assert_eq!(dropped(p.a.udp_packet(&out[0].packet, p.addr_b, t + SEC)), Dropped::NotIp);
    assert_eq!(
        p.a.peer(0).primary_transport.as_ref().unwrap().get_last_recv(),
        Some(t + SEC)
    );
}

#[test]
fn passive_keepalive() {
    let mut p = pair();
    shake(&mut p, 0);
    // B has sent nothing; ten seconds into the session it receives from A.
    let t = KEEPALIVE_TIMEOUT * SEC;
    let (wire, _) = sent(p.a.tun_packet(&ipv4(p.ip_a, p.ip_b, 84), t));
    written(p.b.udp_packet(&wire, p.addr_a, t));
    // A is then silent. At the next tick B sends an empty message.
    let out = tick(&mut p.b, t + SEC);
    assert_eq!(out.len(), 1);
    assert_eq!(out[0].to, p.addr_a);
    assert_eq!(out[0].packet.len(), 32);
    assert_eq!(&out[0].packet[0..4], &[4, 0, 0, 0]);
    assert_eq!(
        p.b.peer(0).primary_transport.as_ref().unwrap().get_last_send(),
        Some(t + SEC)
    );
    // Once is enough.
    assert!(tick(&mut p.b, t + 2 * SEC).is_empty());
}

#[test]
fn no_keepalive_when_we_sent_last_or_too_soon() {
    let mut p = pair();
    shake(&mut p, 0);
    let (wire, _) = sent(p.a.tun_packet(&ipv4(p.ip_a, p.ip_b, 84), 9 * SEC));
    written(p.b.udp_packet(&wire, p.addr_a, 9 * SEC));
    // Nine seconds after the making of the session: not yet.
    assert!(tick(&mut p.b, 30 * SEC).is_empty());
    // B answers, A hears nothing more: no keepalive is owed.
    sent(p.b.tun_packet(&ipv4(p.ip_b, p.ip_a, 84), 12 * SEC));
    assert!(tick(&mut p.b, 60 * SEC).is_empty());
}

#[test]
fn rekey_after_sending_long_after_hearing() {
    let mut p = pair();
    shake(&mut p, 0);
    let (wire, _) = sent(p.a.tun_packet(&ipv4(p.ip_a, p.ip_b, 84), SEC));
    written(p.b.udp_packet(&wire, p.addr_a, SEC));
    // B sends more than fifteen seconds after it last heard from A.
    sent(p.b.tun_packet(&ipv4(p.ip_b, p.ip_a, 84), 16 * SEC));
    assert!(tick(&mut p.b, 17 * SEC).is_empty());
    sent(p.b.tun_packet(&ipv4(p.ip_b, p.ip_a, 84), 16 * SEC + 1));
    let out = tick(&mut p.b, 17 * SEC);
    assert_eq!(out.len(), 1);
    assert_eq!(out[0].packet.len(), 148);
    assert_eq!(out[0].to, p.addr_a);
}

#[test]
fn rekey_on_time() {
    let mut p = pair();
    let t0 = 1000 * SEC;
    shake(&mut p, t0);
    let old_id = p.a.peer(0).primary_transport.as_ref().unwrap().get_self_id();
    // Just before: nothing.
    assert!(tick(&mut p.a, t0 + REKEY_AFTER_TIME * SEC - 1).is_empty());
    assert!(p.a.peer(0).handshake.is_none());
    // At 120 seconds the initiator starts a handshake.
    let out = tick(&mut p.a, t0 + REKEY_AFTER_TIME * SEC);
    assert_eq!(out.len(), 1);
    assert_eq!(out[0].packet.len(), 148);
    assert_eq!(out[0].packet[0], 1);
    assert_eq!(out[0].to, p.addr_b);
    assert!(p.a.peer(0).handshake.is_some());
    // While it is under way no second one starts.
    assert!(tick(&mut p.a, t0 + REKEY_AFTER_TIME * SEC + 1).is_empty());
    wait_for_clock();
    let now = t0 + REKEY_AFTER_TIME * SEC + 2;
    let (resp, _) = sent(p.b.udp_packet(&out[0].packet, p.addr_a, now));
    assert!(is_done(p.a.udp_packet(&resp, p.addr_b, now)));
    let new_id = p.a.peer(0).primary_transport.as_ref().unwrap().get_self_id();
    assert_ne!(new_id, old_id);
    assert_eq!(p.a.peer(0).secondary_transport.as_ref().unwrap().get_self_id(), old_id);
    assert_eq!(p.a.peer_by_id(old_id), Some(0));
    assert_eq!(p.a.peer_by_id(new_id), Some(0));
    // The responder waits ten seconds longer.
    let mut q = pair();
    shake(&mut q, t0);
    assert!(tick(&mut q.b, t0 + (REKEY_AFTER_TIME + 2 * REKEY_TIMEOUT) * SEC - 1).is_empty());
    assert_eq!(tick(&mut q.b, t0 + (REKEY_AFTER_TIME + 2 * REKEY_TIMEOUT) * SEC).len(), 1);
}

#[test]
fn keepalive_comes_before_rekey() {
    let mut p = pair();
    shake(&mut p, 0);
    // A hears from B when the session is 119 seconds old and sends nothing.
    let (wire, _) = sent(p.b.tun_packet(&ipv4(p.ip_b, p.ip_a, 84), 119 * SEC));
    written(p.a.udp_packet(&wire, p.addr_b, 119 * SEC));
    // At 120 seconds both a keepalive and a new key are due: the keepalive goes first.
    let out = tick(&mut p.a, 120 * SEC);
    assert_eq!(out.len(), 1);
    assert_eq!(out[0].packet.len(), 32);
    assert!(p.a.peer(0).handshake.is_none());
    // At the next tick the handshake starts.
    let out = tick(&mut p.a, 121 * SEC);
    assert_eq!(out.len(), 1);
    assert_eq!(out[0].packet.len(), 148);
    assert!(p.a.peer(0).handshake.is_some());
}

#[test]
fn rotation_keeps_two_sessions() {
    let mut p = pair();
    shake(&mut p, 0);
    let first = p.b.peer(0).primary_transport.as_ref().unwrap().get_self_id();
    let ping = ipv4(p.ip_a, p.ip_b, 84);
    let (old_wire, _) = sent(p.a.tun_packet(&ping, 1));
    wait_for_clock();
    shake(&mut p, 2);
    let second = p.b.peer(0).primary_transport.as_ref().unwrap().get_self_id();
    assert_eq!(p.b.peer(0).secondary_transport.as_ref().unwrap().get_self_id(), first);
    // A packet under the previous key is still accepted.
    assert_eq!(written(p.b.udp_packet(&old_wire, p.addr_a, 3)), ping);
    wait_for_clock();
    shake(&mut p, 4);
    let third = p.b.peer(0).primary_transport.as_ref().unwrap().get_self_id();
    assert_eq!(p.b.peer(0).secondary_transport.as_ref().unwrap().get_self_id(), second);
    assert_eq!(p.b.peer_by_id(first), None);
    assert_eq!(p.b.peer_by_id(second), Some(0));
    assert_eq!(p.b.peer_by_id(third), Some(0));
    assert!(!p.b.peer(0).has_id(first));
    assert!(p.b.peer(0).has_id(second));
    assert!(p.b.peer(0).has_id(third));
    // The oldest session is gone.
    let (w, _) = sent(p.a.tun_packet(&ping, 5));
    let mut stale = w.clone();
    stale[4..8].copy_from_slice(first.as_slice());
    assert_eq!(dropped(p.b.udp_packet(&stale, p.addr_a, 6)), Dropped::UnknownId);
    assert_eq!(written(p.b.udp_packet(&w, p.addr_a, 6)), ping);
}

#[test]
fn sessions_expire() {
    let mut p = pair();
    shake(&mut p, 0);
    let id = p.b.peer(0).primary_transport.as_ref().unwrap().get_self_id();
    let ping = ipv4(p.ip_a, p.ip_b, 84);
    // After 180 seconds nothing is received under the session any more.
    let (wire, _) = sent(p.a.tun_packet(&ping, SEC));
    assert_eq!(
        dropped(p.b.udp_packet(&wire, p.addr_a, REJECT_AFTER_TIME * SEC)),
        Dropped::Transport(TransportError::Expired)
    );
    assert_eq!(written(p.b.udp_packet(&wire, p.addr_a, REJECT_AFTER_TIME * SEC - 1)), ping);
    // After 540 seconds the session is deleted.
    tick(&mut p.b, 3 * REJECT_AFTER_TIME * SEC - 1);
    assert!(p.b.peer(0).primary_transport.is_some());
    tick(&mut p.b, 3 * REJECT_AFTER_TIME * SEC);
    assert!(p.b.peer(0).primary_transport.is_none());
    assert_eq!(p.b.peer_by_id(id), None);
    assert_eq!(dropped(p.b.udp_packet(&wire, p.addr_a, 0)), Dropped::UnknownId);
}

#[test]
fn handshake_retries_and_gives_up() {
    let mut p = pair();
    let (first, _) = sent(p.a.start_handshake(0, 0));
    let id1 = Id::from_slice(&first[4..8]);
    // Before five seconds nothing happens.
    assert!(is_done(p.a.handshake_timer(0, REKEY_TIMEOUT * SEC - 1)));
    // Then the initiation is sent again, under a new index.
    let (second, to) = sent(p.a.handshake_timer(0, REKEY_TIMEOUT * SEC));
    assert_eq!(to, p.addr_b);
    assert_eq!(second.len(), 148);
    let id2 = Id::from_slice(&second[4..8]);
    assert_ne!(id1, id2);
    assert_eq!(p.a.peer_by_id(id1), None);
    assert_eq!(p.a.peer_by_id(id2), Some(0));
    assert_eq!(p.a.peer(0).last_mac1.unwrap(), second[116..132]);
    // A response to the first one comes too late.
    let (resp, _) = sent(p.b.udp_packet(&first, p.addr_a, 0));
    assert_eq!(dropped(p.a.udp_packet(&resp, p.addr_b, 6 * SEC)), Dropped::UnknownId);
    // After ninety seconds the attempt is given up.
    assert!(is_done(p.a.handshake_timer(0, REKEY_ATTEMPT_TIME * SEC)));
    assert!(p.a.peer(0).handshake.is_none());
    assert_eq!(p.a.peer_by_id(id2), None);
    assert!(is_done(p.a.handshake_timer(0, 100 * SEC)));
}

#[test]
fn packets_without_route_or_endpoint() {
    let mut p = pair();
    assert_eq!(dropped(p.a.tun_packet(&[1, 2, 3], 0)), Dropped::NotIp);
    assert_eq!(dropped(p.a.tun_packet(&ipv4(p.ip_a, v4(10, 9, 9, 9), 40), 0)), Dropped::NoRoute);
    // B does not know where A is.
    assert_eq!(dropped(p.b.tun_packet(&ipv4(p.ip_b, p.ip_a, 40), 0)), Dropped::NoEndpoint);
    assert_eq!(dropped(p.b.start_handshake(0, 0)), Dropped::NoEndpoint);
}

#[test]
fn datagrams_are_told_apart_by_their_first_byte() {
    let mut p = pair();
    assert_eq!(dropped(p.a.udp_packet(&[4u8; 11], p.addr_b, 0)), Dropped::TooShort);
    assert_eq!(dropped(p.a.udp_packet(&[0u8; 64], p.addr_b, 0)), Dropped::UnknownType);
    assert_eq!(dropped(p.a.udp_packet(&[5u8; 64], p.addr_b, 0)), Dropped::UnknownType);
    assert_eq!(dropped(p.a.udp_packet(&[1u8; 64], p.addr_b, 0)), Dropped::BadLength);
    assert_eq!(dropped(p.a.udp_packet(&[2u8; 92], p.addr_b, 0)), Dropped::UnknownId);
    assert_eq!(dropped(p.a.udp_packet(&[3u8; 64], p.addr_b, 0)), Dropped::UnknownId);
    assert_eq!(dropped(p.a.udp_packet(&[4u8; 64], p.addr_b, 0)), Dropped::UnknownId);
}

#[test]
fn index_map_agrees_with_peers_after_a_tick() {
    let mut p = pair();
    shake(&mut p, 0);
    wait_for_clock();
    shake(&mut p, 1);
    sent(p.a.start_handshake(0, 2));
    tick(&mut p.a, 3);
    let peer = p.a.peer(0);
    let ids = [
        peer.handshake.as_ref().unwrap().self_id,
        peer.primary_transport.as_ref().unwrap().get_self_id(),
        peer.secondary_transport.as_ref().unwrap().get_self_id(),
    ];
    for id in ids {
        assert!(p.a.peer(0).has_id(id));
        assert_eq!(p.a.peer_by_id(id), Some(0));
    }
}

#[test]
fn cookie_reply_is_kept_and_used() {
    let mut p = pair();
    let (init, _) = sent(p.a.start_handshake(0, 0));
    assert_eq!(&init[132..148], &[0u8; 16]);
    let mut mac1 = [0u8; 16];
    mac1.copy_from_slice(&init[116..132]);
    assert_eq!(p.a.peer(0).last_mac1, Some(mac1));
    // B is under load and answers with a cookie.
    let cookie = [0x5au8; 16];
    let pk_b = p.a.peer(0).info.peer_pubkey;
    assert_eq!(check_macs(&pk_b, &init, 116, true, &cookie), MacVerdict::SendCookie);
    let reply = cookie_reply(&pk_b, Id::from_slice(&init[4..8]), &mac1, &cookie);
    assert!(is_done(p.a.udp_packet(&reply, p.addr_b, SEC)));
    assert_eq!(p.a.peer(0).cookie.unwrap().value, cookie);
    assert_eq!(p.a.peer(0).cookie.unwrap().received, SEC);
    // A forged reply is dropped and the cookie stays.
    let mut forged = reply.clone();
    forged[50] ^= 1;
    assert_eq!(dropped(p.a.udp_packet(&forged, p.addr_b, 2 * SEC)), Dropped::Cookie);
    assert_eq!(p.a.peer(0).cookie.unwrap().received, SEC);
    // The next initiation carries MAC2 under the cookie.
    let (again, _) = sent(p.a.handshake_timer(0, REKEY_TIMEOUT * SEC));
    assert!(verify_mac2(&cookie, &again));
    assert_eq!(check_macs(&pk_b, &again, 116, true, &cookie), MacVerdict::Accept);
    // And B takes it.
    let (resp, _) = sent(p.b.udp_packet(&again, p.addr_a, 0));
    assert!(is_done(p.a.udp_packet(&resp, p.addr_b, REKEY_TIMEOUT * SEC)));
    // After two minutes the cookie is no longer used.
    let (late, _) = sent(p.a.start_handshake(0, 130 * SEC));
    assert_eq!(&late[132..148], &[0u8; 16]);
}

#[test]
fn cookie_reply_without_a_handshake_sent() {
    let mut p = pair();
    // B has sessions only as a responder: it never sent a handshake message.
    shake(&mut p, 0);
    let id = p.b.peer(0).primary_transport.as_ref().unwrap().get_self_id();
    let mut reply = vec![3u8, 0, 0, 0];
    reply.extend_from_slice(id.as_slice());
    reply.extend_from_slice(&[0u8; 56]);
    assert_eq!(dropped(p.b.udp_packet(&reply, p.addr_a, 0)), Dropped::NoHandshake);
    assert!(p.b.peer(0).cookie.is_none());
}

#[test]
fn several_peers_and_families() {
    sodiumoxide::init().unwrap();
    let me = WgInfo::new(None, key(1));
    let k2 = WgInfo::new(None, key(2));
    let k3 = WgInfo::new(None, key(3));
    let net6: u128 = 0xfd00_0000_0000_0000_0000_0000_0000_0000;
    let peers = [
        PeerInfo {
            peer_pubkey: k2.pubkey,
            endpoint: Some(endpoint(2, 2)),
            allowed_ips: vec![(IpAddress::V4(v4(10, 0, 0, 0)), 8), (IpAddress::V6(net6), 8)],
        },
        PeerInfo {
            peer_pubkey: k3.pubkey,
            endpoint: Some(endpoint(3, 3)),
            allowed_ips: vec![(IpAddress::V4(v4(10, 1, 0, 0)), 16), (IpAddress::V6(net6 | 7), 128)],
        },
        PeerInfo {
            peer_pubkey: k2.pubkey,
            endpoint: None,
            allowed_ips: vec![(IpAddress::V4(0), 0)],
        },
    ];
    let mut wg = WgState::new(me, &peers);
    assert_eq!(wg.peer_count(), 3);
    assert_eq!(wg.route(IpAddress::V4(v4(10, 0, 0, 1))), Some(0));
    assert_eq!(wg.route(IpAddress::V4(v4(10, 1, 0, 1))), Some(1));
    assert_eq!(wg.route(IpAddress::V4(v4(11, 1, 0, 1))), Some(2));
    assert_eq!(wg.route(IpAddress::V6(net6 | 7)), Some(1));
    assert_eq!(wg.route(IpAddress::V6(net6 | 8)), Some(0));
    assert_eq!(wg.route(IpAddress::V6(1)), None);
    // Of two peers with one key the later is found.
    assert_eq!(wg.find_peer(&k2.pubkey), Some(2));
    assert_eq!(wg.find_peer(&k3.pubkey), Some(1));
    assert_eq!(wg.find_peer(&[0u8; 32]), None);
    assert_eq!(wg.peer(1).info.endpoint, Some(endpoint(3, 3)));
    assert!(wg.peer(1).primary_transport.is_none());
    assert_eq!(wg.peer_by_id(Id([0; 4])), None);
    // Packets go to the peer that their destination routes to.
    let (_, to) = sent(wg.tun_packet(&ipv4(v4(10, 9, 9, 9), v4(10, 1, 2, 3), 40), 0));
    assert_eq!(to, endpoint(3, 3));
    let mut six = vec![0u8; 48];
    six[0] = 0x60;
    six[5] = 8;
    six[24..40].copy_from_slice(&(net6 | 9).to_be_bytes());
    let (init, to) = sent(wg.tun_packet(&six, 0));
    assert_eq!(to, endpoint(2, 2));
    assert_eq!(init.len(), 148);
    assert_eq!(dropped(wg.tun_packet(&ipv4(0, v4(99, 0, 0, 1), 40), 0)), Dropped::NoEndpoint);
    assert!(tick(&mut wg, SEC).is_empty());
}

#[test]
fn rekey_only_when_due() {
    let mut p = pair();
    // No session: nothing is due.
    assert!(is_done(p.a.rekey_if_due(0, 500 * SEC)));
    assert!(p.a.peer(0).handshake.is_none());
    shake(&mut p, 0);
    assert!(is_done(p.a.rekey_if_due(0, REKEY_AFTER_TIME * SEC - 1)));
    assert!(p.a.peer(0).handshake.is_none());
    // Due: the initiation comes back and the handshake waits.
    let (init, to) = sent(p.a.rekey_if_due(0, REKEY_AFTER_TIME * SEC));
    assert_eq!(init.len(), 148);
    assert_eq!(to, p.addr_b);
    let id = Id::from_slice(&init[4..8]);
    assert_eq!(p.a.peer(0).handshake.as_ref().unwrap().self_id, id);
    assert_eq!(p.a.peer(0).handshake.as_ref().unwrap().deadline, (REKEY_AFTER_TIME + REKEY_ATTEMPT_TIME) * SEC);
    assert_eq!(p.a.peer_by_id(id), Some(0));
    // Under way: none is due.
    assert!(is_done(p.a.rekey_if_due(0, REKEY_AFTER_TIME * SEC + 1)));
}

#[test]
fn initiation_is_sent_to_the_given_address() {
    let mut p = pair();
    let elsewhere = endpoint(9, 99);
    let (init, to) = sent(p.a.send_initiation(0, elsewhere, 5, 6));
    assert_eq!(to, elsewhere);
    assert_eq!(init.len(), 148);
    assert_eq!(&init[0..4], &[1, 0, 0, 0]);
    let h = p.a.peer(0).handshake.as_ref().unwrap();
    assert_eq!(h.self_id.as_slice(), &init[4..8]);
    assert_eq!(h.sent_at, 5);
    assert_eq!(h.deadline, 6);
    assert_eq!(p.a.peer(0).last_mac1.unwrap(), init[116..132]);
    // B takes it: it was made for B with A's key and the handshake prologue.
    sent(p.b.udp_packet(&init, p.addr_a, 5));
}

#[test]
fn tick_tells_why_no_handshake_was_started() {
    sodiumoxide::init().unwrap();
    let mut p = pair();
    shake(&mut p, 0);
    // B asks for a new key at 130 seconds. Its peer's address is known.
    let t = p.b.maintain(130 * SEC);
    assert!(t.send.is_empty());
    assert_eq!(t.rekeys.len(), 1);
    let ids_before = p.b.peer(0).primary_transport.as_ref().unwrap().get_self_id();
    match &t.rekeys[0] {
        Reaction::Send { packet, to } => {
            assert_eq!(*to, p.addr_a);
            assert_eq!(packet.len(), 148);
            let h = p.b.peer(0).handshake.as_ref().unwrap();
            assert_eq!(h.self_id.as_slice(), &packet[4..8]);
            assert_eq!(h.sent_at, 130 * SEC);
            assert_eq!(h.deadline, 220 * SEC);
            assert_eq!(p.b.peer(0).last_mac1.unwrap(), packet[116..132]);
        }
        _ => panic!(),
    }
    // The session stays, with its entry in the index map.
    assert_eq!(p.b.peer(0).primary_transport.as_ref().unwrap().get_self_id(), ids_before);
    assert_eq!(p.b.peer_by_id(ids_before), Some(0));
    // While the handshake is under way no other is tried.
    let t = p.b.maintain(131 * SEC);
    assert!(matches!(t.rekeys[0], Reaction::Done));
    assert!(p.b.peer(0).handshake.is_some());
}

#[test]
fn tick_keeps_young_sessions_and_handshakes() {
    let mut p = pair();
    shake(&mut p, 0);
    wait_for_clock();
    shake(&mut p, SEC);
    sent(p.a.start_handshake(0, 2 * SEC));
    let peer = p.a.peer(0);
    let h = peer.handshake.as_ref().unwrap().self_id;
    let first = peer.primary_transport.as_ref().unwrap().get_self_id();
    let second = peer.secondary_transport.as_ref().unwrap().get_self_id();
    let mac1 = peer.last_mac1;
    for now in [3 * SEC, 50 * SEC, 100 * SEC] {
        p.a.maintain(now);
        let peer = p.a.peer(0);
        assert_eq!(peer.handshake.as_ref().unwrap().self_id, h);
        assert_eq!(peer.primary_transport.as_ref().unwrap().get_self_id(), first);
        assert_eq!(peer.secondary_transport.as_ref().unwrap().get_self_id(), second);
        assert_eq!(peer.last_mac1, mac1);
        assert_eq!(p.a.peer_by_id(h), Some(0));
        assert_eq!(p.a.peer_by_id(first), Some(0));
        assert_eq!(p.a.peer_by_id(second), Some(0));
    }
}

#[test]
fn tick_leaves_counters_and_times_alone() {
    let mut p = pair();
    shake(&mut p, 0);
    let ping = ipv4(p.ip_a, p.ip_b, 84);
    for _ in 0..3 {
        let (wire, _) = sent(p.a.tun_packet(&ping, SEC));
        written(p.b.udp_packet(&wire, p.addr_a, 2 * SEC));
    }
    sent(p.b.tun_packet(&ipv4(p.ip_b, p.ip_a, 84), 3 * SEC));
    // No keepalive is owed on either side: a tick changes nothing of the sessions.
    assert!(tick(&mut p.a, 4 * SEC).is_empty());
    assert!(tick(&mut p.b, 4 * SEC).is_empty());
    let ta = p.a.peer(0).primary_transport.as_ref().unwrap();
    assert_eq!(ta.get_send_counter(), 3);
    assert_eq!(ta.get_last_send(), Some(SEC));
    assert_eq!(ta.get_last_recv(), None);
    let tb = p.b.peer(0).primary_transport.as_ref().unwrap();
    assert_eq!(tb.get_send_counter(), 1);
    assert_eq!(tb.get_last_send(), Some(3 * SEC));
    assert_eq!(tb.get_last_recv(), Some(2 * SEC));
    // The window is as it was: what was received is still refused, what was not is taken.
    let (fresh, _) = sent(p.a.tun_packet(&ping, 14 * SEC));
    assert_eq!(written(p.b.udp_packet(&fresh, p.addr_a, 14 * SEC)), ping);
    assert_eq!(
        dropped(p.b.udp_packet(&fresh, p.addr_a, 14 * SEC)),
        Dropped::Transport(TransportError::Replay)
    );
    // B has heard from A more than ten seconds after it last sent: the
    // keepalive steps the counter and sets the time of the last send.
    assert_eq!(tick(&mut p.b, 20 * SEC).len(), 1);
    let tb = p.b.peer(0).primary_transport.as_ref().unwrap();
    assert_eq!(tb.get_send_counter(), 2);
    assert_eq!(tb.get_last_send(), Some(20 * SEC));
    assert_eq!(tb.get_last_recv(), Some(14 * SEC));
}

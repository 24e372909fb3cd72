use titun::config::{allowed_ip, base64_to_arr, lift_err, lift_err_vec, Config, ConfigParts, PeerConfig};
use titun::error::TiTunError;
use titun::tun::{name_len, request_name, NameError};
use titun::wireguard::ip::{parse_ip_packet, IpHeader};
use titun::wireguard::routing::{address_key, IpLookupTable};
use titun::wireguard::types::{address_bits, elapsed, seconds, Endpoint, Id, IpAddress, WgInfo};

#[test]
fn id_bytes() {
    let id = Id::from_slice(&[1, 2, 3, 4]);
    assert_eq!(id, Id([1, 2, 3, 4]));
    assert_eq!(id.as_slice(), &[1, 2, 3, 4]);
    assert_eq!(id.key(), 0x04030201);
    assert!(id.same(&Id([1, 2, 3, 4])));
    assert!(!id.same(&Id([1, 2, 3, 5])));
    assert_ne!(id, Id([0, 2, 3, 4]));
    assert_ne!(id, Id([1, 0, 3, 4]));
    assert_ne!(id, Id([1, 2, 0, 4]));
    assert_ne!(id, Id([1, 2, 3, 0]));
    assert_eq!(Id([0xff; 4]).key(), u32::MAX);
}

#[test]
fn ids_are_random() {
    sodiumoxide::init().unwrap();
    let ids: Vec<Id> = (0..16).map(|_| Id::gen()).collect();
    assert!(ids.iter().any(|i| *i != ids[0]));
}

#[test]
fn public_key_belongs_to_the_secret() {
    // RFC 7748, section 6.1.
    let secret = [
        0x77, 0x07, 0x6d, 0x0a, 0x73, 0x18, 0xa5, 0x7d, 0x3c, 0x16, 0xc1, 0x72, 0x51, 0xb2, 0x66, 0x45,
        0xdf, 0x4c, 0x2f, 0x87, 0xeb, 0xc0, 0x99, 0x2a, 0xb1, 0x77, 0xfb, 0xa5, 0x1d, 0xb9, 0x2c, 0x2a,
    ];
    let public = [
        0x85, 0x20, 0xf0, 0x09, 0x89, 0x30, 0xa7, 0x54, 0x74, 0x8b, 0x7d, 0xdc, 0xb4, 0x3e, 0xf7, 0x5a,
        0x0d, 0xbf, 0x3a, 0x0d, 0x26, 0x38, 0x1a, 0xf4, 0xeb, 0xa4, 0xa9, 0x8e, 0xaa, 0x9b, 0x4e, 0x6a,
    ];
    let info = WgInfo::new(Some([1; 32]), secret);
    assert_eq!(info.pubkey, public);
    assert_eq!(info.key, secret);
    assert_eq!(info.psk, Some([1; 32]));
    assert_eq!(WgInfo::new(None, secret).psk, None);
}

#[test]
fn spans_of_time() {
    assert_eq!(seconds(0), 0);
    assert_eq!(seconds(15), 15_000_000_000);
    assert_eq!(elapsed(10, 3), 7);
    assert_eq!(elapsed(3, 10), 0);
    assert_eq!(elapsed(u64::MAX, 0), u64::MAX);
    assert_eq!(address_bits(IpAddress::V4(0)), 32);
    assert_eq!(address_bits(IpAddress::V6(0)), 128);
}

#[test]
fn ipv4_header() {
    let mut p = vec![0u8; 40];
    p[0] = 0x45;
    p[2] = 0x01;
    p[3] = 0x02;
    p[12..16].copy_from_slice(&[10, 1, 2, 3]);
    p[16..20].copy_from_slice(&[192, 168, 0, 255]);
    assert_eq!(
        parse_ip_packet(&p),
        Ok(IpHeader {
            len: 0x0102,
            src: IpAddress::V4(0x0a010203),
            dst: IpAddress::V4(0xc0a800ff)
        })
    );
    assert_eq!(parse_ip_packet(&p[..20]).map(|h| h.len), Ok(0x0102));
    assert_eq!(parse_ip_packet(&p[..19]), Err(()));
    assert_eq!(parse_ip_packet(&[]), Err(()));
}

#[test]
fn ipv6_header() {
    let mut p = vec![0u8; 60];
    p[0] = 0x60;
    p[4] = 0x00;
    p[5] = 0x14;
    for i in 0..16 {
        p[8 + i] = i as u8 + 1;
        p[24 + i] = 0xf0 + i as u8;
    }
    assert_eq!(
        parse_ip_packet(&p),
        Ok(IpHeader {
            len: 60,
            src: IpAddress::V6(0x0102030405060708090a0b0c0d0e0f10),
            dst: IpAddress::V6(0xf0f1f2f3f4f5f6f7f8f9fafbfcfdfeff)
        })
    );
    assert_eq!(parse_ip_packet(&p[..40]).map(|h| h.len), Ok(60));
    assert_eq!(parse_ip_packet(&p[..39]), Err(()));
    p[4] = 0xff;
    p[5] = 0xff;
    assert_eq!(parse_ip_packet(&p).map(|h| h.len), Ok(65535 + 40));
}

#[test]
fn other_versions_are_no_ip() {
    for v in [0u8, 1, 2, 3, 5, 7, 8, 15] {
        let mut p = vec![0u8; 60];
        p[0] = v << 4 | 5;
        assert_eq!(parse_ip_packet(&p), Err(()));
    }
}

#[test]
fn longest_prefix_wins() {
    let mut t = IpLookupTable::new(32);
    assert_eq!(t.longest_match(0x0a000001), None);
    t.insert(0x0a000000, 8, 1);
    t.insert(0x0a010000, 16, 2);
    t.insert(0x0a010200, 24, 3);
    t.insert(0x0a010203, 32, 4);
    assert_eq!(t.longest_match(0x0a000001), Some(1));
    assert_eq!(t.longest_match(0x0aff0001), Some(1));
    assert_eq!(t.longest_match(0x0a01ff01), Some(2));
    assert_eq!(t.longest_match(0x0a0102ff), Some(3));
    assert_eq!(t.longest_match(0x0a010203), Some(4));
    assert_eq!(t.longest_match(0x0b000001), None);
    // The order of insertion does not matter.
    let mut t = IpLookupTable::new(32);
    t.insert(0x0a010203, 32, 4);
    t.insert(0x0a000000, 8, 1);
    assert_eq!(t.longest_match(0x0a010203), Some(4));
    assert_eq!(t.longest_match(0x0a010204), Some(1));
}

#[test]
fn default_route_and_host_bits() {
    let mut t = IpLookupTable::new(32);
    t.insert(0, 0, 9);
    assert_eq!(t.longest_match(0), Some(9));
    assert_eq!(t.longest_match(u32::MAX as u128), Some(9));
    // Bits beyond the prefix do not count.
    t.insert(0x0a0000ff, 8, 1);
    assert_eq!(t.longest_match(0x0a123456), Some(1));
    // A prefix inserted again takes the new value.
    t.insert(0x0a000000, 8, 2);
    assert_eq!(t.longest_match(0x0a123456), Some(2));
    t.insert(0x80000000, 1, 3);
    assert_eq!(t.longest_match(0x80000000), Some(3));
    assert_eq!(t.longest_match(0x7fffffff), Some(9));
}

#[test]
fn ipv6_routes() {
    let mut t = IpLookupTable::new(128);
    let net: u128 = 0x20010db8_00000000_00000000_00000000;
    t.insert(net, 32, 1);
    t.insert(net | 1, 128, 2);
    t.insert(0, 0, 3);
    assert_eq!(t.longest_match(net | 1), Some(2));
    assert_eq!(t.longest_match(net | 2), Some(1));
    assert_eq!(t.longest_match(net | (1 << 95)), Some(1));
    assert_eq!(t.longest_match(net | (1 << 96)), Some(3));
    assert_eq!(t.longest_match(u128::MAX), Some(3));
    assert_eq!(address_key(IpAddress::V4(7)), 7);
    assert_eq!(address_key(IpAddress::V6(u128::MAX)), u128::MAX);
}

#[test]
fn base64_keys() {
    let text = "AQIDBAUGBwgJCgsMDQ4PEBESExQVFhcYGRobHB0eHyA=";
    let k = base64_to_arr(text).unwrap();
    let want: Vec<u8> = (1..=32).collect();
    assert_eq!(k.to_vec(), want);
    assert_ne!(k.to_vec(), text.as_bytes()[..32].to_vec());
    match base64_to_arr("AQIDBA==") {
        Err(TiTunError::OtherErr(s)) => assert_eq!(s, "not 32 bytes"),
        _ => panic!(),
    }
    match base64_to_arr("") {
        Err(TiTunError::OtherErr(s)) => assert_eq!(s, "not 32 bytes"),
        _ => panic!(),
    }
    match base64_to_arr("not base64 !") {
        Err(TiTunError::OtherErr(s)) => assert_eq!(s, "invalid character"),
        _ => panic!(),
    }
    match base64_to_arr("AQIDB") {
        Err(TiTunError::OtherErr(s)) => assert_eq!(s, "invalid length"),
        _ => panic!(),
    }
}

#[test]
fn allowed_ips_get_their_prefix() {
    assert_eq!(allowed_ip(IpAddress::V4(1), None).unwrap(), (IpAddress::V4(1), 32));
    assert_eq!(allowed_ip(IpAddress::V6(1), None).unwrap(), (IpAddress::V6(1), 128));
    assert_eq!(allowed_ip(IpAddress::V4(1), Some(0)).unwrap(), (IpAddress::V4(1), 0));
    assert_eq!(allowed_ip(IpAddress::V4(1), Some(32)).unwrap(), (IpAddress::V4(1), 32));
    assert_eq!(allowed_ip(IpAddress::V6(1), Some(33)).unwrap(), (IpAddress::V6(1), 33));
    assert_eq!(allowed_ip(IpAddress::V6(1), Some(128)).unwrap(), (IpAddress::V6(1), 128));
    match allowed_ip(IpAddress::V4(1), Some(33)) {
        Err(TiTunError::OtherErr(s)) => assert_eq!(s, "failed to parse allowed IPs."),
        _ => panic!(),
    }
    assert!(allowed_ip(IpAddress::V6(1), Some(129)).is_err());
}

#[test]
fn results_are_lifted() {
    assert_eq!(lift_err::<u8>(None).unwrap(), None);
    assert_eq!(lift_err(Some(Ok(3u8))).unwrap(), Some(3));
    match lift_err::<u8>(Some(Err(TiTunError::GracefulExit))) {
        Err(TiTunError::GracefulExit) => {}
        _ => panic!(),
    }
    assert_eq!(lift_err_vec::<u8>(vec![]).unwrap(), Vec::<u8>::new());
    assert_eq!(lift_err_vec(vec![Ok(1u8), Ok(2), Ok(3)]).unwrap(), vec![1, 2, 3]);
    let mixed = vec![
        Ok(1u8),
        Err(TiTunError::OtherErr("first".to_string())),
        Ok(3),
        Err(TiTunError::OtherErr("second".to_string())),
    ];
    match lift_err_vec(mixed) {
        Err(TiTunError::OtherErr(s)) => assert_eq!(s, "first"),
        _ => panic!(),
    }
}

fn parts() -> ConfigParts {
    ConfigParts {
        dev_name: "tun7".to_string(),
        listen_port: Some(7777),
        psk: Some("AQIDBAUGBwgJCgsMDQ4PEBESExQVFhcYGRobHB0eHyA=".to_string()),
        key: "dwdtCnMYpX08FsFyUbJmRd9ML4frwJkqsXf7pR25LCo=".to_string(),
        peers: vec![PeerConfig {
            public_key: "hSDwCYkwp1R0i33ctD73Wg2/Og0mOBr066SpjqqbTmo=".to_string(),
            endpoint: Some(Endpoint { ip: IpAddress::V4(0x7f000001), port: 9, flowinfo: 0, scope_id: 0 }),
            allowed_ips: vec![(IpAddress::V4(0x0a000000), Some(8)), (IpAddress::V6(1), None)],
        }],
        on_up: Some("ip link set tun7 up".to_string()),
        on_down: None,
    }
}

#[test]
fn configuration_is_built() {
    sodiumoxide::init().unwrap();
    let c = Config::build(parts()).ok().unwrap();
    assert_eq!(c.dev_name, "tun7");
    assert_eq!(c.listen_port, Some(7777));
    assert_eq!(c.on_up, Some("ip link set tun7 up".to_string()));
    assert_eq!(c.on_down, None);
    assert_eq!(c.info.psk.unwrap().to_vec(), (1..=32).collect::<Vec<u8>>());
    assert_eq!(c.info.key[0], 0x77);
    // The public key of the secret; here it is the peer's key too.
    assert_eq!(c.info.pubkey, c.peers[0].peer_pubkey);
    assert_eq!(c.info.pubkey[0], 0x85);
    assert_eq!(c.peers.len(), 1);
    assert_eq!(c.peers[0].endpoint.unwrap().port, 9);
    assert_eq!(
        c.peers[0].allowed_ips,
        vec![(IpAddress::V4(0x0a000000), 8), (IpAddress::V6(1), 128)]
    );
}

#[test]
fn configuration_errors() {
    let mut p = parts();
    p.psk = Some("AQID".to_string());
    assert!(Config::build(p).is_err());
    let mut p = parts();
    p.key = "????".to_string();
    assert!(Config::build(p).is_err());
    let mut p = parts();
    p.peers[0].public_key = "".to_string();
    assert!(Config::build(p).is_err());
    let mut p = parts();
    p.peers[0].allowed_ips.push((IpAddress::V4(0), Some(40)));
    match Config::build(p) {
        Err(TiTunError::OtherErr(s)) => assert_eq!(s, "failed to parse allowed IPs."),
        _ => panic!(),
    }
    let mut p = parts();
    p.psk = None;
    p.peers.clear();
    let c = Config::build(p).ok().unwrap();
    assert!(c.info.psk.is_none());
    assert!(c.peers.is_empty());
}

#[test]
fn errors_in_words() {
    assert_eq!(TiTunError::IoErr("no such device".to_string()).message(), "IO Error: no such device");
    assert_eq!(TiTunError::OtherErr("cannot resolve host".to_string()).message(), "cannot resolve host");
    assert_eq!(TiTunError::GracefulExit.message(), "GracefulExit");
    assert_eq!(TiTunError::IoErr("no such device".to_string()).description(), "no such device");
    assert_eq!(TiTunError::OtherErr("x".to_string()).description(), "x");
    assert_eq!(TiTunError::GracefulExit.description(), "GracefulExit");
    match TiTunError::other("not 32 bytes") {
        TiTunError::OtherErr(s) => assert_eq!(s, "not 32 bytes"),
        _ => panic!(),
    }
    match TiTunError::from("words".to_string()) {
        TiTunError::OtherErr(s) => assert_eq!(s, "words"),
        _ => panic!(),
    }
}

#[test]
fn device_names() {
    assert_eq!(request_name(None), Ok([0u8; 16]));
    assert_eq!(request_name(Some("")), Ok([0u8; 16]));
    let mut want = [0u8; 16];
    want[..4].copy_from_slice(b"tun0");
    assert_eq!(request_name(Some("tun0")), Ok(want));
    assert_eq!(name_len(&want), 4);
    let mut want = [0u8; 16];
    want[..15].copy_from_slice(b"123456789012345");
    assert_eq!(request_name(Some("123456789012345")), Ok(want));
    assert_eq!(name_len(&want), 15);
    assert_eq!(request_name(Some("1234567890123456")), Err(NameError::TooLong));
    assert_eq!(request_name(Some("tun\0x")), Err(NameError::HasNul));
    assert_eq!(name_len(&[0u8; 16]), 0);
    assert_eq!(name_len(&[b'x'; 16]), 16);
}

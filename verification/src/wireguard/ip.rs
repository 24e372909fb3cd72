//! Inner IP packet headers: just enough to pick a peer.
use crate::endian::{be_u128, be_u16, be_u32, spec_be_u128, spec_be_u16, spec_be_u32};
use crate::wireguard::types::IpAddress;
use vstd::prelude::*;

verus! {

/// What the header of an inner packet says.
#[derive(Debug, Copy, Clone, PartialEq, Eq, Structural)]
pub struct IpHeader {
    /// Length of the whole packet, header included.
    pub len: u32,
    pub src: IpAddress,
    pub dst: IpAddress,
}

/// The IP version that the first byte of a packet names.
pub open spec fn spec_version(packet: Seq<u8>) -> int {
    packet[0] as int / 16
}

/// What `parse_ip_packet` makes of a packet: `None` where it is no IPv4 or
/// IPv6 packet with a whole fixed header.
pub open spec fn spec_parse_ip_packet(packet: Seq<u8>) -> Option<IpHeader> {
    if packet.len() < 20 {
        None
    } else if spec_version(packet) == 4 {
        Some(
            IpHeader {
                len: spec_be_u16(packet.subrange(2, 4)) as u32,
                src: IpAddress::V4(spec_be_u32(packet.subrange(12, 16))),
                dst: IpAddress::V4(spec_be_u32(packet.subrange(16, 20))),
            },
        )
    } else if spec_version(packet) == 6 && packet.len() >= 40 {
        Some(
            IpHeader {
                len: (spec_be_u16(packet.subrange(4, 6)) as int + 40) as u32,
                src: IpAddress::V6(spec_be_u128(packet.subrange(8, 24))),
                dst: IpAddress::V6(spec_be_u128(packet.subrange(24, 40))),
            },
        )
    } else {
        None
    }
}

/// Read version, length, source and destination off an inner packet.
///
/// An IPv4 packet needs its 20-byte header and gives its total-length field;
/// an IPv6 packet needs its 40-byte header and gives its payload length plus
/// 40. Anything else is an error.
pub fn parse_ip_packet(packet: &[u8]) -> (r: Result<IpHeader, ()>)
    ensures
        r.is_ok() <==> spec_parse_ip_packet(packet@).is_some(),
        r matches Ok(h) ==> spec_parse_ip_packet(packet@) == Some(h),
{
    if packet.len() < 20 {
        return Err(());
    }
    let v: u8 = packet[0] / 16;
    if v == 4 {
        let len: u32 = be_u16(packet, 2) as u32;
        let src = be_u32(packet, 12);
        let dst = be_u32(packet, 16);
        Ok(IpHeader { len, src: IpAddress::V4(src), dst: IpAddress::V4(dst) })
    } else if v == 6 && packet.len() >= 40 {
        let len: u32 = be_u16(packet, 4) as u32 + 40;
        let src = be_u128(packet, 8);
        let dst = be_u128(packet, 24);
        Ok(IpHeader { len, src: IpAddress::V6(src), dst: IpAddress::V6(dst) })
    } else {
        Err(())
    }
}

} // verus!

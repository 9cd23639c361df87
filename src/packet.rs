//! IPv4 packets captured by the packet filter's log queue: where the UDP
//! payload, the DNS message, starts.
use vstd::prelude::*;

verus! {

/// IP protocol number of UDP.
pub const PROTO_UDP: u8 = 17;

/// Length of a UDP header.
pub const UDP_HEADER_LEN: usize = 8;

/// Where the UDP payload of an IPv4 packet starts: after the IP header (its
/// length from the header length field, at least 20 bytes) and the 8-byte UDP
/// header. `None` when the packet is not IPv4, not UDP, or too short.
pub open spec fn udp_payload_start(p: Seq<u8>) -> Option<int> {
    if p.len() < 28 {
        None
    } else {
        let ihl = (p[0] % 16) as int * 4;
        if p[0] / 16 != 4 || ihl < 20 || p[9] != PROTO_UDP || p.len() < ihl + 8 {
            None
        } else {
            Some(ihl + 8)
        }
    }
}

/// The UDP payload of an IPv4 packet (see `udp_payload_start`).
pub fn udp_payload(packet: &[u8]) -> (r: Option<&[u8]>)
    ensures
        match udp_payload_start(packet@) {
            None => r is None,
            Some(s) => r is Some && r->Some_0@ == packet@.subrange(s, packet@.len() as int),
        },
{
    let n = packet.len();
    if n < 28 {
        return None;
    }
    let ihl = (packet[0] % 16) as usize * 4;
    if packet[0] / 16 != 4 || ihl < 20 || packet[9] != PROTO_UDP || n < ihl + UDP_HEADER_LEN {
        return None;
    }
    Some(&packet[ihl + UDP_HEADER_LEN..n])
}

} // verus!

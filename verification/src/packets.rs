//! What a raw IPv4 packet asks for: the TCP or UDP port it is sent to.
//!
//! The packets are read by `smoltcp::wire`. Each function that calls it states, over the bytes of
//! the packet, what its source shows.

use smoltcp::wire::{Ipv4Packet, TcpPacket, UdpPacket};
use vstd::prelude::*;

verus! {

/// The number of TCP in an IPv4 header.
pub const PROTOCOL_TCP: u8 = 6;

/// The number of UDP in an IPv4 header.
pub const PROTOCOL_UDP: u8 = 17;

/// The two bytes at `i` as a number, most significant first.
pub open spec fn be16(b: Seq<u8>, i: int) -> int {
    b[i] * 256 + b[i + 1]
}

/// The length of the IPv4 header that the packet states.
pub open spec fn ipv4_header_len(b: Seq<u8>) -> int {
    (b[0] as int % 16) * 4
}

/// Whether the bytes hold a whole IPv4 packet: the header, and as many bytes as it states.
pub open spec fn is_ipv4(b: Seq<u8>) -> bool {
    b.len() >= 20 && ipv4_header_len(b) <= be16(b, 2) <= b.len()
}

/// The bytes behind the IPv4 header, as far as the packet reaches.
pub open spec fn ipv4_payload(b: Seq<u8>) -> Seq<u8> {
    b.subrange(ipv4_header_len(b), be16(b, 2))
}

/// Whether the bytes begin with a whole TCP header.
pub open spec fn is_tcp(b: Seq<u8>) -> bool {
    b.len() >= 20 && 20 <= (b[12] as int / 16) * 4 <= b.len()
}

/// Whether the bytes hold a whole UDP datagram.
pub open spec fn is_udp(b: Seq<u8>) -> bool {
    b.len() >= 8 && 8 <= be16(b, 4) <= b.len()
}

/// `Ipv4Packet::new_checked`. It accepts a buffer of at least 20 bytes in which the stated header
/// length is at most the stated total length, and that at most the buffer's length.
#[verifier::external_body]
fn check_ipv4(packet: &[u8]) -> (r: bool)
    ensures
        r == is_ipv4(packet@),
{
    Ipv4Packet::new_checked(packet).is_ok()
}

/// `Ipv4Packet::next_header`, as the number that stands in the header: byte 9.
#[verifier::external_body]
fn ipv4_protocol(packet: &[u8]) -> (r: u8)
    requires
        is_ipv4(packet@),
    ensures
        r == packet@[9],
{
    u8::from(Ipv4Packet::new_unchecked(packet).next_header())
}

/// `Ipv4Packet::payload`: the bytes from the end of the header to the end of the packet.
#[verifier::external_body]
fn ipv4_data(packet: &[u8]) -> (r: Vec<u8>)
    requires
        is_ipv4(packet@),
    ensures
        r@ == ipv4_payload(packet@),
{
    Ipv4Packet::new_unchecked(packet).payload().to_vec()
}

/// `TcpPacket::new_checked`. It accepts a buffer of at least 20 bytes in which the stated header
/// length is at least 20 and at most the buffer's length.
#[verifier::external_body]
fn check_tcp(segment: &[u8]) -> (r: bool)
    ensures
        r == is_tcp(segment@),
{
    TcpPacket::new_checked(segment).is_ok()
}

/// `TcpPacket::dst_port`: the two bytes at 2.
#[verifier::external_body]
fn tcp_dst_port(segment: &[u8]) -> (r: u16)
    requires
        is_tcp(segment@),
    ensures
        r == be16(segment@, 2),
{
    TcpPacket::new_unchecked(segment).dst_port()
}

/// `UdpPacket::new_checked`. It accepts a buffer of at least 8 bytes in which the stated length is
/// at least 8 and at most the buffer's length.
#[verifier::external_body]
fn check_udp(datagram: &[u8]) -> (r: bool)
    ensures
        r == is_udp(datagram@),
{
    UdpPacket::new_checked(datagram).is_ok()
}

/// `UdpPacket::dst_port`: the two bytes at 2.
#[verifier::external_body]
fn udp_dst_port(datagram: &[u8]) -> (r: u16)
    requires
        is_udp(datagram@),
    ensures
        r == be16(datagram@, 2),
{
    UdpPacket::new_unchecked(datagram).dst_port()
}

/// What a packet needs a listener for.
#[derive(Debug, Clone, Copy, PartialEq, Eq, Structural)]
pub enum Target {
    Tcp { port: u16 },
    Udp { port: u16 },
}

/// What a packet needs a listener for, if it is a whole TCP or UDP packet.
pub open spec fn target(packet: Seq<u8>) -> Option<Target> {
    if !is_ipv4(packet) {
        None
    } else {
        let payload = ipv4_payload(packet);
        if packet[9] == PROTOCOL_TCP && is_tcp(payload) {
            Some(Target::Tcp { port: be16(payload, 2) as u16 })
        } else if packet[9] == PROTOCOL_UDP && is_udp(payload) {
            Some(Target::Udp { port: be16(payload, 2) as u16 })
        } else {
            None
        }
    }
}

/// What a packet needs a listener for, if it is a whole TCP or UDP packet.
pub fn target_of(packet: &[u8]) -> (r: Option<Target>)
    ensures
        r == target(packet@),
{
    if !check_ipv4(packet) {
        return None;
    }
    let protocol: u8 = ipv4_protocol(packet);
    let payload = ipv4_data(packet);
    if protocol == PROTOCOL_TCP {
        if check_tcp(payload.as_slice()) {
            Some(Target::Tcp { port: tcp_dst_port(payload.as_slice()) })
        } else {
            None
        }
    } else if protocol == PROTOCOL_UDP {
        if check_udp(payload.as_slice()) {
            Some(Target::Udp { port: udp_dst_port(payload.as_slice()) })
        } else {
            None
        }
    } else {
        None
    }
}

/// A TCP packet asks for the port in bytes 2 and 3 of its TCP header, whatever options or data
/// follow: all that counts is that the IPv4 header and the packet are as long as they state, that
/// the protocol is TCP, and that the TCP header is whole. Nothing else asks for a TCP port.
pub proof fn law_tcp_packet_asks_for_its_port(packet: Seq<u8>, head: int, end: int)
    requires
        packet.len() >= 20,
        head == 4 * (packet[0] as int % 16),
        end == 256 * packet[2] + packet[3],
    ensures
        head <= end <= packet.len() && packet[9] == 6 && end - head >= 20 && 5 <= packet[head + 12]
            as int / 16 && 4 * (packet[head + 12] as int / 16) <= end - head ==> (target(packet)
            matches Some(Target::Tcp { port }) && port == 256 * packet[head + 2] + packet[head
            + 3]),
        target(packet) is Some && target(packet)->0 is Tcp ==> head <= end <= packet.len()
            && packet[9] == 6 && end - head >= 20 && 5 <= packet[head + 12] as int / 16 && 4 * (
        packet[head + 12] as int / 16) <= end - head,
{
    if head <= end <= packet.len() {
        let payload = ipv4_payload(packet);
        assert(payload =~= packet.subrange(head, end));
        if end - head >= 20 {
            assert(payload[12] == packet[head + 12]);
            assert(payload[2] == packet[head + 2]);
            assert(payload[3] == packet[head + 3]);
        }
    }
}

/// A UDP packet asks for the port in bytes 2 and 3 of its UDP header, whatever data follow: all that
/// counts is that the IPv4 header, the packet and the datagram are as long as they state, and that
/// the protocol is UDP. Nothing else asks for a UDP port.
pub proof fn law_udp_packet_asks_for_its_port(packet: Seq<u8>, head: int, end: int)
    requires
        packet.len() >= 20,
        head == 4 * (packet[0] as int % 16),
        end == 256 * packet[2] + packet[3],
    ensures
        head <= end <= packet.len() && packet[9] == 17 && end - head >= 8 && 8 <= 256 * packet[head
            + 4] + packet[head + 5] <= end - head ==> (target(packet) matches Some(
            Target::Udp { port },
        ) && port == 256 * packet[head + 2] + packet[head + 3]),
        target(packet) is Some && target(packet)->0 is Udp ==> head <= end <= packet.len()
            && packet[9] == 17 && end - head >= 8 && 8 <= 256 * packet[head + 4] + packet[head + 5]
            <= end - head,
{
    if head <= end <= packet.len() {
        let payload = ipv4_payload(packet);
        assert(payload =~= packet.subrange(head, end));
        if end - head >= 8 {
            assert(payload[2] == packet[head + 2]);
            assert(payload[3] == packet[head + 3]);
            assert(payload[4] == packet[head + 4]);
            assert(payload[5] == packet[head + 5]);
        }
    }
}

/// What is too short for an IPv4 header asks for nothing.
pub proof fn law_short_packets_ask_for_nothing(packet: Seq<u8>)
    requires
        packet.len() < 20,
    ensures
        target(packet) is None,
{
}

/// Two packets that agree in the lengths they state, in the protocol and in the first twenty bytes
/// behind the IPv4 header ask for the same, whatever else they hold.
pub proof fn law_only_headers_count(a: Seq<u8>, b: Seq<u8>, head: int)
    requires
        a.len() == b.len() >= 20,
        a[0] == b[0],
        a[2] == b[2],
        a[3] == b[3],
        a[9] == b[9],
        head == 4 * (a[0] as int % 16),
        forall|k: int| head <= k < head + 20 && k < a.len() ==> #[trigger] a[k] == b[k],
    ensures
        target(a) == target(b),
{
    let end = 256 * a[2] + a[3];
    if head <= end <= a.len() {
        let pa = ipv4_payload(a);
        let pb = ipv4_payload(b);
        assert(pa =~= a.subrange(head, end));
        assert(pb =~= b.subrange(head, end));
        assert forall|k: int| 0 <= k < 20 && k < pa.len() implies #[trigger] pa[k] == pb[k] by {
            assert(a[head + k] == b[head + k]);
        }
    }
}

/// The bytes behind a whole packet change nothing about what it asks for.
pub proof fn law_trailing_bytes_are_ignored(packet: Seq<u8>, trailing: Seq<u8>)
    requires
        is_ipv4(packet),
    ensures
        target(packet + trailing) == target(packet),
{
    let whole = packet + trailing;
    assert(whole[0] == packet[0] && whole[2] == packet[2] && whole[3] == packet[3] && whole[9]
        == packet[9]);
    assert(ipv4_payload(whole) =~= ipv4_payload(packet));
}

/// Every TCP packet with a whole header is served, with options, with data or without: [`target_of`]
/// gives the port in its header.
pub proof fn law_tcp_packets_are_served(packet: &[u8], r: Option<Target>, head: int, end: int)
    requires
        call_ensures(target_of, (packet,), r),
        packet@.len() >= 20,
        head == 4 * (packet@[0] as int % 16),
        end == 256 * packet@[2] + packet@[3],
        head + 20 <= end <= packet@.len(),
        packet@[9] == 6,
        5 <= packet@[head + 12] as int / 16,
        4 * (packet@[head + 12] as int / 16) <= end - head,
    ensures
        r matches Some(Target::Tcp { port }) && port == 256 * packet@[head + 2] + packet@[head + 3],
{
    law_tcp_packet_asks_for_its_port(packet@, head, end);
}

/// Every UDP packet with a whole datagram is served: [`target_of`] gives the port in its header.
pub proof fn law_udp_packets_are_served(packet: &[u8], r: Option<Target>, head: int, end: int)
    requires
        call_ensures(target_of, (packet,), r),
        packet@.len() >= 20,
        head == 4 * (packet@[0] as int % 16),
        end == 256 * packet@[2] + packet@[3],
        head + 8 <= end <= packet@.len(),
        packet@[9] == 17,
        8 <= 256 * packet@[head + 4] + packet@[head + 5] <= end - head,
    ensures
        r matches Some(Target::Udp { port }) && port == 256 * packet@[head + 2] + packet@[head + 3],
{
    law_udp_packet_asks_for_its_port(packet@, head, end);
}

} // verus!

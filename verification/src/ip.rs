//! IP packets: version, transport protocol and addresses, read from the IPv4 or IPv6 header.
use vstd::prelude::*;

use crate::address::{big_endian, read_big_endian, IpAddr, Ipv4Addr, Ipv6Addr};
use crate::frame::{
    law_plain_frame_carries_its_payload, law_raw_packet_is_its_payload,
    law_tagged_frame_carries_its_payload, payload_of, PacketType, VLAN_ETHERTYPE,
};

verus! {

/// Why a captured packet is left out.
#[derive(Clone, Copy, Debug, PartialEq, Eq, Structural)]
pub enum PacketError {
    /// An IPv4 packet with an Options field.
    OptionsFieldError,
    /// A packet of a transport protocol other than TCP and UDP.
    FilteredPacket,
}

/// The transport protocol of a packet.
#[derive(Clone, Copy, Debug, PartialEq, Eq, Structural)]
pub enum Protocol {
    Tcp,
    Udp,
    Unknown,
}

/// The version of an IP packet.
#[derive(Clone, Copy, Debug, PartialEq, Eq, Structural)]
pub enum IpVersion {
    Ipv4,
    Ipv6,
    Unknown,
}

/// An IP packet with what its header tells; `data` holds the whole packet, header and all.
#[derive(Clone, Debug)]
pub struct IpPacket {
    pub version: IpVersion,
    pub protocol: Protocol,
    pub source_ip: IpAddr,
    pub destination_ip: IpAddr,
    pub data: Vec<u8>,
}

/// The mathematical content of an IP packet.
#[verifier::ext_equal]
pub struct IpPacketView {
    pub version: IpVersion,
    pub protocol: Protocol,
    pub source_ip: IpAddr,
    pub destination_ip: IpAddr,
    pub data: Seq<u8>,
}

impl View for IpPacket {
    type V = IpPacketView;

    open spec fn view(&self) -> IpPacketView {
        IpPacketView {
            version: self.version,
            protocol: self.protocol,
            source_ip: self.source_ip,
            destination_ip: self.destination_ip,
            data: self.data@,
        }
    }
}

/// The version stands in the upper four bits of the first byte.
pub open spec fn version_of(data: Seq<u8>) -> IpVersion {
    if data[0] / 16 == 4 {
        IpVersion::Ipv4
    } else if data[0] / 16 == 6 {
        IpVersion::Ipv6
    } else {
        IpVersion::Unknown
    }
}

/// The Internet Header Length of an IPv4 packet stands in the lower four bits of the first byte. It
/// is 5 exactly when the packet has no Options field.
pub open spec fn has_options(data: Seq<u8>) -> bool {
    data[0] % 16 != 5
}

/// The protocol that a protocol number stands for.
pub open spec fn protocol_of_number(number: u8) -> Protocol {
    if number == 6 {
        Protocol::Tcp
    } else if number == 17 {
        Protocol::Udp
    } else {
        Protocol::Unknown
    }
}

/// The protocol number stands in byte 9 of an IPv4 header and in byte 6 of an IPv6 header.
pub open spec fn protocol_of(data: Seq<u8>) -> Protocol {
    match version_of(data) {
        IpVersion::Ipv4 => protocol_of_number(data[9]),
        IpVersion::Ipv6 => protocol_of_number(data[6]),
        IpVersion::Unknown => Protocol::Unknown,
    }
}

/// The IPv4 address in the four bytes from `at`.
pub open spec fn ipv4_at(data: Seq<u8>, at: int) -> IpAddr {
    IpAddr::V4(Ipv4Addr { a: data[at], b: data[at + 1], c: data[at + 2], d: data[at + 3] })
}

/// The IPv6 address in the sixteen bytes from `at`.
pub open spec fn ipv6_at(data: Seq<u8>, at: int) -> IpAddr {
    IpAddr::V6(
        Ipv6Addr {
            a: big_endian(data[at], data[at + 1]),
            b: big_endian(data[at + 2], data[at + 3]),
            c: big_endian(data[at + 4], data[at + 5]),
            d: big_endian(data[at + 6], data[at + 7]),
            e: big_endian(data[at + 8], data[at + 9]),
            f: big_endian(data[at + 10], data[at + 11]),
            g: big_endian(data[at + 12], data[at + 13]),
            h: big_endian(data[at + 14], data[at + 15]),
        },
    )
}

/// The source address stands from byte 12 of an IPv4 header and from byte 8 of an IPv6 header.
pub open spec fn source_of(data: Seq<u8>) -> IpAddr {
    if version_of(data) == IpVersion::Ipv4 {
        ipv4_at(data, 12)
    } else {
        ipv6_at(data, 8)
    }
}

/// The destination address stands from byte 16 of an IPv4 header and from byte 24 of an IPv6
/// header.
pub open spec fn destination_of(data: Seq<u8>) -> IpAddr {
    if version_of(data) == IpVersion::Ipv4 {
        ipv4_at(data, 16)
    } else {
        ipv6_at(data, 24)
    }
}

/// Whether the bytes are an IP packet that can be told apart: of version 4 or 6, and as long as the
/// header from which it is read. Of an IPv4 packet with options only the first byte is read.
pub open spec fn is_ip_packet(data: Seq<u8>) -> bool {
    &&& data.len() >= 1
    &&& match version_of(data) {
        IpVersion::Ipv4 => has_options(data) || data.len() >= 20,
        IpVersion::Ipv6 => data.len() >= 40,
        IpVersion::Unknown => false,
    }
}

/// What reading the bytes of an IP packet gives: an IPv4 packet with options is left out, any other
/// is read by its header.
pub open spec fn ip_packet_of(data: Seq<u8>) -> Result<IpPacketView, PacketError> {
    if version_of(data) == IpVersion::Ipv4 && has_options(data) {
        Err(PacketError::OptionsFieldError)
    } else {
        Ok(
            IpPacketView {
                version: version_of(data),
                protocol: protocol_of(data),
                source_ip: source_of(data),
                destination_ip: destination_of(data),
                data,
            },
        )
    }
}

/// Reads the IPv4 address in the four bytes from `at`.
fn read_ipv4(data: &[u8], at: usize) -> (address: IpAddr)
    requires
        at + 4 <= data@.len(),
    ensures
        address == ipv4_at(data@, at as int),
{
    IpAddr::V4(Ipv4Addr::new(data[at], data[at + 1], data[at + 2], data[at + 3]))
}

/// Reads the IPv6 address in the sixteen bytes from `at`.
fn read_ipv6(data: &[u8], at: usize) -> (address: IpAddr)
    requires
        at + 16 <= data@.len(),
    ensures
        address == ipv6_at(data@, at as int),
{
    IpAddr::V6(
        Ipv6Addr::new(
            read_big_endian(data[at], data[at + 1]),
            read_big_endian(data[at + 2], data[at + 3]),
            read_big_endian(data[at + 4], data[at + 5]),
            read_big_endian(data[at + 6], data[at + 7]),
            read_big_endian(data[at + 8], data[at + 9]),
            read_big_endian(data[at + 10], data[at + 11]),
            read_big_endian(data[at + 12], data[at + 13]),
            read_big_endian(data[at + 14], data[at + 15]),
        ),
    )
}

impl IpPacket {
    /// Reads an IP packet. An IPv4 packet with an Options field is refused: there are few uses of
    /// that field across networks.
    pub fn new(data: &[u8]) -> (packet: Result<Self, PacketError>)
        requires
            is_ip_packet(data@),
        ensures
            match packet {
                Ok(packet) => ip_packet_of(data@) == Ok::<IpPacketView, PacketError>(packet@),
                Err(error) => ip_packet_of(data@) == Err::<IpPacketView, PacketError>(error),
            },
    {
        let first: u8 = data[0];
        assert(first >> 4 == first / 16) by (bit_vector);
        assert(first & 0xF == first % 16) by (bit_vector);

        let version = match first >> 4 {
            4 => IpVersion::Ipv4,
            6 => IpVersion::Ipv6,
            _ => IpVersion::Unknown,
        };

        if version == IpVersion::Ipv4 && first & 0xF != 5 {
            return Err(PacketError::OptionsFieldError);
        }
        let protocol_number: u8 = if version == IpVersion::Ipv4 {
            data[9]
        } else {
            data[6]
        };
        let protocol = match protocol_number {
            6 => Protocol::Tcp,
            17 => Protocol::Udp,
            _ => Protocol::Unknown,
        };

        let (source_ip, destination_ip) = if version == IpVersion::Ipv4 {
            (read_ipv4(data, 12), read_ipv4(data, 16))
        } else {
            (read_ipv6(data, 8), read_ipv6(data, 24))
        };

        Ok(
            IpPacket {
                version,
                protocol,
                source_ip,
                destination_ip,
                data: vstd::slice::slice_to_vec(data),
            },
        )
    }
}

/// The bytes of an IPv4 address.
pub open spec fn ipv4_bytes(address: Ipv4Addr) -> Seq<u8> {
    seq![address.a, address.b, address.c, address.d]
}

/// The bytes of an IPv6 address, each segment in network order.
pub open spec fn ipv6_bytes(address: Ipv6Addr) -> Seq<u8> {
    seq![
        (address.a / 256) as u8,
        (address.a % 256) as u8,
        (address.b / 256) as u8,
        (address.b % 256) as u8,
        (address.c / 256) as u8,
        (address.c % 256) as u8,
        (address.d / 256) as u8,
        (address.d % 256) as u8,
        (address.e / 256) as u8,
        (address.e % 256) as u8,
        (address.f / 256) as u8,
        (address.f % 256) as u8,
        (address.g / 256) as u8,
        (address.g % 256) as u8,
        (address.h / 256) as u8,
        (address.h % 256) as u8,
    ]
}

/// The addresses that were put into an IPv4 header without options are read back from it, whatever
/// goes before and after them, and the whole packet is kept.
pub proof fn law_ipv4_addresses_read_back(
    before: Seq<u8>,
    source: Ipv4Addr,
    destination: Ipv4Addr,
    after: Seq<u8>,
)
    requires
        before.len() == 12,
        before[0] == 0x45,
    ensures
        ({
            let data = before + ipv4_bytes(source) + ipv4_bytes(destination) + after;
            &&& is_ip_packet(data)
            &&& ip_packet_of(data) matches Ok(packet) && {
                &&& packet.version == IpVersion::Ipv4
                &&& packet.protocol == Protocol::Tcp <==> before[9] == 6
                &&& packet.protocol == Protocol::Udp <==> before[9] == 17
                &&& packet.source_ip == IpAddr::V4(source)
                &&& packet.destination_ip == IpAddr::V4(destination)
                &&& packet.data == data
            }
        }),
{
}

/// The addresses that were put into an IPv6 header are read back from it, whatever goes before and
/// after them, and the whole packet is kept.
pub proof fn law_ipv6_addresses_read_back(
    before: Seq<u8>,
    source: Ipv6Addr,
    destination: Ipv6Addr,
    after: Seq<u8>,
)
    requires
        before.len() == 8,
        before[0] / 16 == 6,
    ensures
        ({
            let data = before + ipv6_bytes(source) + ipv6_bytes(destination) + after;
            &&& is_ip_packet(data)
            &&& ip_packet_of(data) matches Ok(packet) && {
                &&& packet.version == IpVersion::Ipv6
                &&& packet.protocol == Protocol::Tcp <==> before[6] == 6
                &&& packet.protocol == Protocol::Udp <==> before[6] == 17
                &&& packet.source_ip == IpAddr::V6(source)
                &&& packet.destination_ip == IpAddr::V6(destination)
                &&& packet.data == data
            }
        }),
{
}

/// Whether an IP packet was captured by itself, in a plain Ethernet frame or in a VLAN-tagged one,
/// the payload reads as the same packet.
pub proof fn law_framing_does_not_change_the_packet(
    plain: Seq<u8>,
    tagged: Seq<u8>,
    data: Seq<u8>,
)
    requires
        plain.len() == 14,
        big_endian(plain[12], plain[13]) != VLAN_ETHERTYPE,
        tagged.len() == 18,
        big_endian(tagged[12], tagged[13]) == VLAN_ETHERTYPE,
    ensures
        ip_packet_of(payload_of(PacketType::RawIp, data)) == ip_packet_of(data),
        ip_packet_of(payload_of(PacketType::Ethernet, plain + data)) == ip_packet_of(data),
        ip_packet_of(payload_of(PacketType::Ethernet, tagged + data)) == ip_packet_of(data),
{
    law_raw_packet_is_its_payload(data);
    law_plain_frame_carries_its_payload(plain, data);
    law_tagged_frame_carries_its_payload(tagged, data);
}

/// Any 20 bytes or more that begin with 0x45 are an IPv4 packet. Its protocol is that of byte 9 and
/// its addresses are in bytes 12 to 19, whatever the other bytes hold.
pub proof fn law_ipv4_packet_is_read(data: Seq<u8>)
    requires
        data.len() >= 20,
        data[0] == 0x45,
    ensures
        is_ip_packet(data),
        ip_packet_of(data) matches Ok(packet) && {
            &&& packet.version == IpVersion::Ipv4
            &&& packet.protocol == Protocol::Tcp <==> data[9] == 6
            &&& packet.protocol == Protocol::Udp <==> data[9] == 17
            &&& packet.source_ip == IpAddr::V4(
                Ipv4Addr { a: data[12], b: data[13], c: data[14], d: data[15] },
            )
            &&& packet.destination_ip == IpAddr::V4(
                Ipv4Addr { a: data[16], b: data[17], c: data[18], d: data[19] },
            )
            &&& packet.data == data
        },
{
}

/// Any 40 bytes or more whose first byte is 0x60 to 0x6f are an IPv6 packet. Its protocol is that
/// of byte 6 and its addresses are in bytes 8 to 39, whatever the other bytes hold.
pub proof fn law_ipv6_packet_is_read(data: Seq<u8>)
    requires
        data.len() >= 40,
        0x60 <= data[0] <= 0x6f,
    ensures
        is_ip_packet(data),
        ip_packet_of(data) matches Ok(packet) && {
            &&& packet.version == IpVersion::Ipv6
            &&& packet.protocol == Protocol::Tcp <==> data[6] == 6
            &&& packet.protocol == Protocol::Udp <==> data[6] == 17
            &&& packet.source_ip matches IpAddr::V6(source) && {
                &&& source.a == data[8] * 256 + data[9]
                &&& source.b == data[10] * 256 + data[11]
                &&& source.c == data[12] * 256 + data[13]
                &&& source.d == data[14] * 256 + data[15]
                &&& source.e == data[16] * 256 + data[17]
                &&& source.f == data[18] * 256 + data[19]
                &&& source.g == data[20] * 256 + data[21]
                &&& source.h == data[22] * 256 + data[23]
            }
            &&& packet.destination_ip matches IpAddr::V6(destination) && {
                &&& destination.a == data[24] * 256 + data[25]
                &&& destination.b == data[26] * 256 + data[27]
                &&& destination.c == data[28] * 256 + data[29]
                &&& destination.d == data[30] * 256 + data[31]
                &&& destination.e == data[32] * 256 + data[33]
                &&& destination.f == data[34] * 256 + data[35]
                &&& destination.g == data[36] * 256 + data[37]
                &&& destination.h == data[38] * 256 + data[39]
            }
            &&& packet.data == data
        },
{
}

/// An IPv4 packet is refused exactly when its first byte is not 0x45, which says that it has an
/// Options field; an IPv6 packet never is. Of a refused packet nothing but that byte is read.
pub proof fn law_packets_with_options_are_refused(data: Seq<u8>)
    requires
        data.len() >= 1,
    ensures
        0x40 <= data[0] <= 0x4f && data[0] != 0x45 ==> is_ip_packet(data) && ip_packet_of(data)
            == Err::<IpPacketView, PacketError>(PacketError::OptionsFieldError),
        data[0] == 0x45 || 0x60 <= data[0] <= 0x6f ==> ip_packet_of(data) is Ok,
{
}

/// What is read of a packet does not depend on the bytes that go unread: two IPv4 packets that agree
/// on the protocol byte and the address bytes give the same protocol and addresses, and so do two
/// IPv6 packets.
pub proof fn law_other_bytes_do_not_matter(data: Seq<u8>, other: Seq<u8>)
    requires
        data.len() >= 20 && other.len() >= 20,
        data[0] == 0x45 && other[0] == 0x45 && data[9] == other[9] && data.subrange(12, 20)
            == other.subrange(12, 20) || data.len() >= 40 && other.len() >= 40 && 0x60 <= data[0]
            <= 0x6f && 0x60 <= other[0] <= 0x6f && data[6] == other[6] && data.subrange(8, 40)
            == other.subrange(8, 40),
    ensures
        ip_packet_of(data) matches Ok(packet) && ip_packet_of(other) matches Ok(other_packet) && {
            &&& packet.protocol == other_packet.protocol
            &&& packet.source_ip == other_packet.source_ip
            &&& packet.destination_ip == other_packet.destination_ip
        },
{
    if data[0] == 0x45 {
        assert forall|i: int| 12 <= i < 20 implies #[trigger] data[i] == other[i] by {
            assert(data.subrange(12, 20)[i - 12] == other.subrange(12, 20)[i - 12]);
        }
    } else {
        assert forall|i: int| 8 <= i < 40 implies #[trigger] data[i] == other[i] by {
            assert(data.subrange(8, 40)[i - 8] == other.subrange(8, 40)[i - 8]);
        }
    }
}

/// The view of an IP packet shows all of its fields.
pub proof fn law_ip_packet_view(packet: IpPacket)
    ensures
        packet@.version == packet.version,
        packet@.protocol == packet.protocol,
        packet@.source_ip == packet.source_ip,
        packet@.destination_ip == packet.destination_ip,
        packet@.data == packet.data@,
{
}

} // verus!

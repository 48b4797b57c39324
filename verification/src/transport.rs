//! TCP and UDP packets: their ports and the size of what the application sent.
use vstd::prelude::*;

use crate::address::{big_endian, read_big_endian, IpAddr, SocketAddr};
use crate::ip::{
    ip_packet_of, is_ip_packet, protocol_of, IpPacket, IpPacketView, PacketError, Protocol,
};

verus! {

/// Either a TCP or a UDP packet: for what is needed to estimate the traffic of a process, both are
/// read alike. `data` starts with the transport header.
#[derive(Clone, Debug, PartialEq)]
pub struct TransportLayerPacket {
    pub protocol: Protocol,
    pub source_ip: IpAddr,
    pub destination_ip: IpAddr,
    pub source_address: Option<SocketAddr>,
    pub destination_address: Option<SocketAddr>,
    pub size: u64,
    pub data: Vec<u8>,
}

/// The mathematical content of a transport packet.
#[verifier::ext_equal]
pub struct TransportLayerPacketView {
    pub protocol: Protocol,
    pub source_ip: IpAddr,
    pub destination_ip: IpAddr,
    pub source_address: Option<SocketAddr>,
    pub destination_address: Option<SocketAddr>,
    pub size: u64,
    pub data: Seq<u8>,
}

impl View for TransportLayerPacket {
    type V = TransportLayerPacketView;

    open spec fn view(&self) -> TransportLayerPacketView {
        TransportLayerPacketView {
            protocol: self.protocol,
            source_ip: self.source_ip,
            destination_ip: self.destination_ip,
            source_address: self.source_address,
            destination_address: self.destination_address,
            size: self.size,
            data: self.data@,
        }
    }
}

/// The length of the IP header in front of a transport packet.
pub const IP_HEADER_LENGTH: usize = 20;

/// Whether an IP packet can be asked for its transport packet: one of a known protocol holds the IP
/// header that goes before it.
pub open spec fn can_carry_transport(packet: IpPacketView) -> bool {
    packet.protocol != Protocol::Unknown ==> packet.data.len() >= IP_HEADER_LENGTH
}

/// The transport packet that an IP packet carries, its ports not yet parsed. A packet of an unknown
/// protocol is filtered out.
pub open spec fn transport_packet_of(packet: IpPacketView) -> Result<
    TransportLayerPacketView,
    PacketError,
> {
    if packet.protocol == Protocol::Unknown {
        Err(PacketError::FilteredPacket)
    } else {
        let data = packet.data.skip(IP_HEADER_LENGTH as int);
        Ok(
            TransportLayerPacketView {
                protocol: packet.protocol,
                source_ip: packet.source_ip,
                destination_ip: packet.destination_ip,
                source_address: None,
                destination_address: None,
                size: data.len() as u64,
                data,
            },
        )
    }
}

/// A transport packet with its addresses filled in: the source port stands in the first two bytes
/// of its header and the destination port in the next two.
pub open spec fn parsed(packet: TransportLayerPacketView) -> TransportLayerPacketView {
    TransportLayerPacketView {
        source_address: Some(
            SocketAddr {
                ip: packet.source_ip,
                port: big_endian(packet.data[0], packet.data[1]),
            },
        ),
        destination_address: Some(
            SocketAddr {
                ip: packet.destination_ip,
                port: big_endian(packet.data[2], packet.data[3]),
            },
        ),
        ..packet
    }
}

impl TransportLayerPacket {
    /// Takes the transport packet out of an IP packet.
    pub fn new(ip_packet: &IpPacket) -> (packet: Result<Self, PacketError>)
        requires
            can_carry_transport(ip_packet@),
        ensures
            match packet {
                Ok(packet) => transport_packet_of(ip_packet@) == Ok::<
                    TransportLayerPacketView,
                    PacketError,
                >(packet@),
                Err(error) => transport_packet_of(ip_packet@) == Err::<
                    TransportLayerPacketView,
                    PacketError,
                >(error),
            },
    {
        if ip_packet.protocol == Protocol::Unknown {
            return Err(PacketError::FilteredPacket);
        }
        let whole = ip_packet.data.as_slice();
        let data = vstd::slice::slice_subrange(whole, IP_HEADER_LENGTH, whole.len());
        assert(data@ == ip_packet.data@.skip(IP_HEADER_LENGTH as int));
        Ok(
            TransportLayerPacket {
                protocol: ip_packet.protocol,
                source_ip: ip_packet.source_ip,
                destination_ip: ip_packet.destination_ip,
                source_address: None,
                destination_address: None,
                size: data.len() as u64,
                data: vstd::slice::slice_to_vec(data),
            },
        )
    }

    /// Fills in both addresses. UDP and TCP headers hold the ports in the same place.
    pub fn parse(&mut self)
        requires
            old(self).data@.len() >= 4,
        ensures
            final(self)@ == parsed(old(self)@),
    {
        let source_port: u16 = read_big_endian(self.data[0], self.data[1]);
        let destination_port: u16 = read_big_endian(self.data[2], self.data[3]);

        self.source_address = Some(SocketAddr::new(self.source_ip, source_port));
        self.destination_address = Some(SocketAddr::new(self.destination_ip, destination_port));
    }
}

/// The size of a transport packet in bits, as a 32-bit number.
pub open spec fn packet_bits(data: Seq<u8>) -> nat {
    (data.len() * 8) % 0x1_0000_0000
}

/// The size in bits that is taken off a packet for its transport header. A TCP header gives its
/// length, in words of 32 bits, in the upper four bits of its byte 12; for UDP it is 16.
pub open spec fn header_bits(data: Seq<u8>, protocol: Protocol) -> nat {
    match protocol {
        Protocol::Tcp => (data[12] / 16) as nat * 32,
        _ => 16,
    }
}

/// Whether a transport packet can be measured: it is TCP or UDP, holds the header field from which
/// the length is read, and is no smaller than its header.
pub open spec fn is_measurable(data: Seq<u8>, protocol: Protocol) -> bool {
    &&& protocol != Protocol::Unknown
    &&& protocol == Protocol::Tcp ==> data.len() >= 13
    &&& data.len() * 8 <= usize::MAX
    &&& header_bits(data, protocol) <= packet_bits(data)
}

/// The size in bits of what the application sent in a transport packet.
pub open spec fn app_packet_size(data: Seq<u8>, protocol: Protocol) -> nat {
    (packet_bits(data) - header_bits(data, protocol)) as nat
}

/// The size of a transport packet without its header, in bits.
pub fn identify_app_packet_size(data: &[u8], protocol: Protocol) -> (size: u32)
    requires
        is_measurable(data@, protocol),
    ensures
        size == app_packet_size(data@, protocol),
{
    let bits: usize = data.len() * 8;
    let wide: u64 = bits as u64;
    assert(wide as u32 == wide % 0x1_0000_0000) by (bit_vector);
    let total_packet_size: u32 = #[verifier::truncate] (wide as u32);
    let header_size: u32 = match protocol {
        Protocol::Tcp => {
            let offset: u8 = data[12];
            assert(offset >> 4 == offset / 16) by (bit_vector);
            ((offset >> 4) as u32) * 32
        },
        _ => 16,
    };
    total_packet_size - header_size
}

/// The transport packet taken out of an IP packet is as long as its size field says, carries the
/// addresses of the IP packet, and reading the ports changes none of that.
pub proof fn law_transport_packet_keeps_the_addresses(packet: IpPacketView)
    requires
        packet.protocol != Protocol::Unknown,
        IP_HEADER_LENGTH <= packet.data.len() <= u64::MAX,
    ensures
        transport_packet_of(packet) matches Ok(transport) && {
            &&& transport.size == transport.data.len()
            &&& transport.data.len() == packet.data.len() - IP_HEADER_LENGTH
            &&& transport.source_ip == packet.source_ip
            &&& transport.destination_ip == packet.destination_ip
            &&& parsed(transport).source_address->0.ip == packet.source_ip
            &&& parsed(transport).destination_address->0.ip == packet.destination_ip
            &&& parsed(transport).size == transport.size
            &&& parsed(transport).data == transport.data
        },
{
}

/// Parsing a packet a second time changes nothing.
pub proof fn law_parsing_is_idempotent(packet: TransportLayerPacketView)
    ensures
        parsed(parsed(packet)) == parsed(packet),
{
}

/// Every IP packet that was read can be asked for its transport packet, and the answer depends on
/// the protocol alone: TCP and UDP give one, any other is filtered out.
pub proof fn law_read_packets_carry_transport(data: Seq<u8>)
    requires
        is_ip_packet(data),
        ip_packet_of(data) is Ok,
    ensures
        can_carry_transport(ip_packet_of(data)->Ok_0),
        transport_packet_of(ip_packet_of(data)->Ok_0) is Ok <==> protocol_of(data)
            != Protocol::Unknown,
{
}

/// The ports that were put into a transport header are read back from it.
pub proof fn law_ports_read_back(
    packet: TransportLayerPacketView,
    source_port: u16,
    destination_port: u16,
    rest: Seq<u8>,
)
    requires
        packet.data == seq![
            (source_port / 256) as u8,
            (source_port % 256) as u8,
            (destination_port / 256) as u8,
            (destination_port % 256) as u8,
        ] + rest,
    ensures
        parsed(packet).source_address == Some(
            SocketAddr { ip: packet.source_ip, port: source_port },
        ),
        parsed(packet).destination_address == Some(
            SocketAddr { ip: packet.destination_ip, port: destination_port },
        ),
{
}

/// A packet divides into its header and what the application sent: in bits, both together are the
/// whole packet, as long as its size is a 32-bit number.
pub proof fn law_packet_divides_into_header_and_content(data: Seq<u8>, protocol: Protocol)
    requires
        is_measurable(data, protocol),
        data.len() * 8 < 0x1_0000_0000,
    ensures
        header_bits(data, protocol) + app_packet_size(data, protocol) == data.len() * 8,
{
}

/// A TCP or UDP packet of 20 bytes or more gives a transport packet with its protocol and addresses
/// and all of its bytes from the twentieth on; the ports are left to be parsed.
pub proof fn law_transport_packet_is_taken_out(packet: IpPacketView)
    requires
        packet.protocol == Protocol::Tcp || packet.protocol == Protocol::Udp,
        20 <= packet.data.len() <= usize::MAX,
    ensures
        can_carry_transport(packet),
        transport_packet_of(packet) matches Ok(transport) && {
            &&& transport.protocol == packet.protocol
            &&& transport.source_ip == packet.source_ip
            &&& transport.destination_ip == packet.destination_ip
            &&& transport.source_address is None
            &&& transport.destination_address is None
            &&& transport.size == packet.data.len() - 20
            &&& transport.data == packet.data.skip(20)
        },
{
}

/// A packet of another protocol is filtered out, however long it is.
pub proof fn law_other_protocols_are_filtered_out(packet: IpPacketView)
    requires
        packet.protocol != Protocol::Tcp,
        packet.protocol != Protocol::Udp,
    ensures
        can_carry_transport(packet),
        transport_packet_of(packet) == Err::<TransportLayerPacketView, PacketError>(
            PacketError::FilteredPacket,
        ),
{
}

/// Parsing reads the source port from the first two bytes and the destination port from the next
/// two, puts each beside its address, and leaves everything else as it was.
pub proof fn law_parsing_reads_the_ports(packet: TransportLayerPacketView)
    requires
        packet.data.len() >= 4,
    ensures
        parsed(packet).source_address matches Some(source) && {
            &&& source.ip == packet.source_ip
            &&& source.port == packet.data[0] * 256 + packet.data[1]
        },
        parsed(packet).destination_address matches Some(destination) && {
            &&& destination.ip == packet.destination_ip
            &&& destination.port == packet.data[2] * 256 + packet.data[3]
        },
        parsed(packet).protocol == packet.protocol,
        parsed(packet).source_ip == packet.source_ip,
        parsed(packet).destination_ip == packet.destination_ip,
        parsed(packet).size == packet.size,
        parsed(packet).data == packet.data,
{
}

/// A TCP packet that is no shorter than the header of `words` words of four bytes that its byte 12
/// announces measures its bits less 32 for each of those words.
pub proof fn law_tcp_packets_are_measured(data: Seq<u8>, words: nat, low: nat)
    requires
        words < 16,
        low < 16,
        13 <= data.len() < 0x2000_0000,
        data[12] == words * 16 + low,
        words * 4 <= data.len(),
    ensures
        is_measurable(data, Protocol::Tcp),
        app_packet_size(data, Protocol::Tcp) == data.len() * 8 - words * 32,
{
}

/// A UDP packet of two bytes or more measures its bits less 16.
pub proof fn law_udp_packets_are_measured(data: Seq<u8>)
    requires
        2 <= data.len() < 0x2000_0000,
    ensures
        is_measurable(data, Protocol::Udp),
        app_packet_size(data, Protocol::Udp) == data.len() * 8 - 16,
{
}

/// A longer packet is measured by what of its bits a 32-bit number holds.
pub proof fn law_long_packets_are_measured(data: Seq<u8>, words: nat, low: nat)
    requires
        data.len() * 8 <= usize::MAX,
        data.len() >= 0x2000_0000,
        words < 16,
        low < 16,
        data[12] == words * 16 + low,
    ensures
        (data.len() * 8) % 0x1_0000_0000 >= words * 32 ==> {
            &&& is_measurable(data, Protocol::Tcp)
            &&& app_packet_size(data, Protocol::Tcp) == (data.len() * 8) % 0x1_0000_0000 - words
                * 32
        },
        (data.len() * 8) % 0x1_0000_0000 >= 16 ==> {
            &&& is_measurable(data, Protocol::Udp)
            &&& app_packet_size(data, Protocol::Udp) == (data.len() * 8) % 0x1_0000_0000 - 16
        },
{
}

/// A TCP header of as many words as it announces, with a content behind it, measures the bits of
/// the content, whatever header and content hold.
pub proof fn law_tcp_content_is_measured(header: Seq<u8>, content: Seq<u8>)
    requires
        header.len() >= 13,
        header.len() == (header[12] as nat / 16) * 4,
        header.len() + content.len() < 0x2000_0000,
    ensures
        is_measurable(header + content, Protocol::Tcp),
        app_packet_size(header + content, Protocol::Tcp) == content.len() * 8,
{
    let words = header[12] as nat / 16;
    law_tcp_packets_are_measured(header + content, words, header[12] as nat % 16);
}

/// Each byte more of content measures eight bits more, whatever it is.
pub proof fn law_each_byte_measures_eight_bits(data: Seq<u8>, more: Seq<u8>, protocol: Protocol)
    requires
        is_measurable(data, protocol),
        data.len() + more.len() < 0x2000_0000,
    ensures
        is_measurable(data + more, protocol),
        app_packet_size(data + more, protocol) == app_packet_size(data, protocol) + more.len() * 8,
{
}

/// The view of a transport packet shows all of its fields.
pub proof fn law_transport_packet_view(packet: TransportLayerPacket)
    ensures
        packet@.protocol == packet.protocol,
        packet@.source_ip == packet.source_ip,
        packet@.destination_ip == packet.destination_ip,
        packet@.source_address == packet.source_address,
        packet@.destination_address == packet.destination_address,
        packet@.size == packet.size,
        packet@.data == packet.data@,
{
}

} // verus!

//! Captured link-layer packets: telling Ethernet frames from raw IP packets, and the payload that
//! they carry.
use vstd::prelude::*;

use crate::address::{big_endian, read_big_endian};

verus! {

/// What a capture handle delivers, as its datalink type tells.
#[derive(Clone, Copy, Debug, PartialEq, Eq, Structural)]
pub enum PacketType {
    Ethernet,
    RawIp,
    Unknown,
}

/// Whether an Ethernet frame carries a VLAN tag.
#[derive(Clone, Copy, Debug, PartialEq, Eq, Structural)]
pub enum EtherType {
    VlanTagged,
    NotVlanTagged,
}

/// The ethertype 0x8100, which announces a VLAN tag.
pub const VLAN_ETHERTYPE: u16 = 0x8100;

/// A packet as captured at the link layer. Depending on the datalink type of the monitored network
/// interface it is either an Ethernet frame or a raw IP packet.
#[derive(Clone, Debug)]
pub struct Packet {
    pub datalink_type: i32,
    pub data: Vec<u8>,
    pub packet_type: Option<PacketType>,
}

/// The packet type that a datalink type stands for: 1 is Ethernet; 12 (raw IP without a link
/// layer), 101 (`DLT_RAW`), 228 (`DLT_IPV4`) and 229 (`DLT_IPV6`) are raw IP.
pub open spec fn packet_type_of(datalink_type: i32) -> PacketType {
    if datalink_type == 1 {
        PacketType::Ethernet
    } else if datalink_type == 12 || datalink_type == 101 || datalink_type == 228 || datalink_type
        == 229 {
        PacketType::RawIp
    } else {
        PacketType::Unknown
    }
}

/// The ethertype of an Ethernet frame stands in its bytes 12 and 13.
pub open spec fn ethertype_of(frame: Seq<u8>) -> EtherType {
    if big_endian(frame[12], frame[13]) == VLAN_ETHERTYPE {
        EtherType::VlanTagged
    } else {
        EtherType::NotVlanTagged
    }
}

/// The length of the header in front of the payload of a packet of known type.
pub open spec fn link_header_length(packet_type: PacketType, data: Seq<u8>) -> nat {
    match packet_type {
        PacketType::Ethernet => match ethertype_of(data) {
            EtherType::VlanTagged => 18,
            EtherType::NotVlanTagged => 14,
        },
        _ => 0,
    }
}

/// Whether a packet is of a known type and holds its whole link-layer header.
pub open spec fn has_payload(packet_type: PacketType, data: Seq<u8>) -> bool {
    &&& packet_type != PacketType::Unknown
    &&& packet_type == PacketType::Ethernet ==> data.len() >= 14
    &&& data.len() >= link_header_length(packet_type, data)
}

/// What follows the link-layer header.
pub open spec fn payload_of(packet_type: PacketType, data: Seq<u8>) -> Seq<u8> {
    data.skip(link_header_length(packet_type, data) as int)
}

impl Packet {
    /// Takes in captured bytes and identifies them by the datalink type of their interface.
    pub fn new(datalink_type: &i32, data: &[u8]) -> (packet: Self)
        ensures
            packet.datalink_type == *datalink_type,
            packet.data@ == data@,
            packet.packet_type == Some(packet_type_of(*datalink_type)),
            packet.packet_type == Some(PacketType::Ethernet) <==> *datalink_type == 1,
            packet.packet_type == Some(PacketType::RawIp) <==> (*datalink_type == 12
                || *datalink_type == 101 || *datalink_type == 228 || *datalink_type == 229),
    {
        let mut packet = Packet {
            datalink_type: *datalink_type,
            data: vstd::slice::slice_to_vec(data),
            packet_type: None,
        };
        let packet_type = packet.identify();
        packet.packet_type = Some(packet_type);
        packet
    }

    /// The packet type that the datalink type stands for.
    pub fn identify(&self) -> (packet_type: PacketType)
        ensures
            packet_type == packet_type_of(self.datalink_type),
    {
        match self.datalink_type {
            1 => PacketType::Ethernet,
            12 | 101 | 228 | 229 => PacketType::RawIp,
            _ => PacketType::Unknown,
        }
    }

    /// The bytes behind the link-layer header: 14 bytes of an Ethernet frame, 18 if it is
    /// VLAN-tagged, none of a raw IP packet.
    pub fn payload(&self) -> (payload: Vec<u8>)
        requires
            self.packet_type is Some,
            has_payload(self.packet_type->0, self.data@),
        ensures
            payload@ == payload_of(self.packet_type->0, self.data@),
            self.packet_type == Some(PacketType::RawIp) ==> payload@ == self.data@,
            self.packet_type == Some(PacketType::Ethernet) ==> payload@ == self.data@.skip(
                if self.data@[12] == 0x81 && self.data@[13] == 0 {
                    18
                } else {
                    14
                },
            ),
    {
        let data = self.data.as_slice();
        let header: usize = match self.packet_type {
            Some(PacketType::Ethernet) => match self.parse_ethertype() {
                EtherType::NotVlanTagged => 14,
                EtherType::VlanTagged => 18,
            },
            _ => 0,
        };
        vstd::slice::slice_to_vec(vstd::slice::slice_subrange(data, header, data.len()))
    }

    /// Whether the Ethernet frame is VLAN-tagged. Every ethertype other than 0x8100 goes with the
    /// plain 14-byte header.
    pub fn parse_ethertype(&self) -> (ethertype: EtherType)
        requires
            self.data@.len() >= 14,
        ensures
            ethertype == ethertype_of(self.data@),
    {
        let ethertype: u16 = read_big_endian(self.data[12], self.data[13]);
        if ethertype == VLAN_ETHERTYPE {
            EtherType::VlanTagged
        } else {
            EtherType::NotVlanTagged
        }
    }
}

/// The payload of a plain Ethernet frame is what was put behind its header: a 14-byte header whose
/// ethertype is not the VLAN one gives back the bytes that follow it, whatever they are.
pub proof fn law_plain_frame_carries_its_payload(header: Seq<u8>, content: Seq<u8>)
    requires
        header.len() == 14,
        big_endian(header[12], header[13]) != VLAN_ETHERTYPE,
    ensures
        has_payload(PacketType::Ethernet, header + content),
        payload_of(PacketType::Ethernet, header + content) == content,
{
    assert((header + content).skip(14) =~= content);
}

/// The payload of a VLAN-tagged Ethernet frame is what was put behind its 18-byte header.
pub proof fn law_tagged_frame_carries_its_payload(header: Seq<u8>, content: Seq<u8>)
    requires
        header.len() == 18,
        big_endian(header[12], header[13]) == VLAN_ETHERTYPE,
    ensures
        has_payload(PacketType::Ethernet, header + content),
        payload_of(PacketType::Ethernet, header + content) == content,
{
    assert((header + content).skip(18) =~= content);
}

/// A raw IP packet is its own payload.
pub proof fn law_raw_packet_is_its_payload(data: Seq<u8>)
    ensures
        has_payload(PacketType::RawIp, data),
        payload_of(PacketType::RawIp, data) == data,
{
    assert(data.skip(0) =~= data);
}

/// Datalink type 1 is Ethernet, 12, 101, 228 and 229 are raw IP, and no other is known.
pub proof fn law_datalink_types(datalink_type: i32)
    ensures
        packet_type_of(datalink_type) == PacketType::Ethernet <==> datalink_type == 1,
        packet_type_of(datalink_type) == PacketType::RawIp <==> (datalink_type == 12
            || datalink_type == 101 || datalink_type == 228 || datalink_type == 229),
{
}

/// A frame is VLAN-tagged exactly when its bytes 12 and 13 are 0x81 and 0x00, whatever else it
/// holds.
pub proof fn law_tagged_frames(frame: Seq<u8>)
    ensures
        ethertype_of(frame) == EtherType::VlanTagged <==> frame[12] == 0x81 && frame[13] == 0,
        ethertype_of(frame) == EtherType::NotVlanTagged <==> !(frame[12] == 0x81 && frame[13] == 0),
{
}

/// Capturing the bytes of a header and a content on an Ethernet interface gives back the content,
/// whatever both hold: the header is 18 bytes long if its bytes 12 and 13 are 0x81 and 0x00, and 14
/// bytes long if they are not.
pub proof fn law_captured_frame_gives_its_content(header: Seq<u8>, content: Seq<u8>)
    requires
        header.len() == (if header[12] == 0x81 && header[13] == 0 {
            18int
        } else {
            14int
        }),
    ensures
        has_payload(packet_type_of(1), header + content),
        payload_of(packet_type_of(1), header + content) == content,
{
    law_datalink_types(1);
    law_tagged_frames(header + content);
    assert((header + content)[12] == header[12]);
    assert((header + content)[13] == header[13]);
    assert((header + content).skip(header.len() as int) =~= content);
}

/// Capturing bytes on an interface of raw IP gives them back as they are.
pub proof fn law_captured_raw_packet_is_its_content(datalink_type: i32, data: Seq<u8>)
    requires
        datalink_type == 12 || datalink_type == 101 || datalink_type == 228 || datalink_type == 229,
    ensures
        has_payload(packet_type_of(datalink_type), data),
        payload_of(packet_type_of(datalink_type), data) == data,
{
    law_datalink_types(datalink_type);
    law_raw_packet_is_its_payload(data);
}

} // verus!

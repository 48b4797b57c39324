//! Listening sockets: the process that owns them, the packets that they exchange and the direction
//! of their traffic.
use vstd::prelude::*;

use crate::address::{is_among, IpAddr};
use crate::ip::{IpPacket, IpPacketView, Protocol};
use crate::process::{
    law_owner_is_the_first_to_own, owner, owns, ProcessNetworkMetrics, ProcessNetworkMetricsView,
};
use crate::transport::{
    app_packet_size, can_carry_transport, identify_app_packet_size, is_measurable,
    law_tcp_packets_are_measured, law_udp_packets_are_measured, transport_packet_of,
    TransportLayerPacket, TransportLayerPacketView, IP_HEADER_LENGTH,
};

verus! {

/// Which way the traffic of a socket goes.
#[derive(Clone, Copy, Debug, PartialEq, Eq, Structural)]
pub enum Direction {
    Outgoing,
    Incoming,
    Local,
}

/// A TCP or UDP listening socket, as listed in `/proc/net/tcp`, `/proc/net/udp` and their IPv6
/// counterparts. It is meant to be allocated to a network interface.
#[derive(Clone, Debug, PartialEq)]
pub struct Socket {
    pub inode: i32,
    pub process_name: Option<String>,
    pub pid: Option<u32>,
    pub protocol: Option<Protocol>,
    pub source_ip: Option<IpAddr>,
    pub destination_ip: Option<IpAddr>,
    pub source_port: Option<u32>,
    pub destination_port: Option<u32>,
    pub direction: Option<Direction>,
    pub packets: Vec<TransportLayerPacket>,
    pub app_packets_size: Option<u64>,
}

/// The mathematical content of a socket.
#[verifier::ext_equal]
pub struct SocketView {
    pub inode: i32,
    pub process_name: Option<Seq<char>>,
    pub pid: Option<u32>,
    pub protocol: Option<Protocol>,
    pub source_ip: Option<IpAddr>,
    pub destination_ip: Option<IpAddr>,
    pub source_port: Option<u32>,
    pub destination_port: Option<u32>,
    pub direction: Option<Direction>,
    pub packets: Seq<TransportLayerPacketView>,
    pub app_packets_size: Option<u64>,
}

/// The contents of packets.
pub open spec fn packet_views(packets: Seq<TransportLayerPacket>) -> Seq<TransportLayerPacketView> {
    packets.map_values(|packet: TransportLayerPacket| packet@)
}

/// The contents of sockets.
pub open spec fn socket_views(sockets: Seq<Socket>) -> Seq<SocketView> {
    sockets.map_values(|socket: Socket| socket@)
}

impl View for Socket {
    type V = SocketView;

    open spec fn view(&self) -> SocketView {
        SocketView {
            inode: self.inode,
            process_name: match self.process_name {
                Some(name) => Some(name@),
                None => None,
            },
            pid: self.pid,
            protocol: self.protocol,
            source_ip: self.source_ip,
            destination_ip: self.destination_ip,
            source_port: self.source_port,
            destination_port: self.destination_port,
            direction: self.direction,
            packets: packet_views(self.packets@),
            app_packets_size: self.app_packets_size,
        }
    }
}

/// A socket of which only what its table tells is known.
pub open spec fn new_socket(
    inode: i32,
    source_ip: IpAddr,
    destination_ip: IpAddr,
    source_port: u32,
    destination_port: u32,
) -> SocketView {
    SocketView {
        inode,
        process_name: None,
        pid: None,
        protocol: None,
        source_ip: Some(source_ip),
        destination_ip: Some(destination_ip),
        source_port: Some(source_port),
        destination_port: Some(destination_port),
        direction: None,
        packets: Seq::empty(),
        app_packets_size: None,
    }
}

/// A socket with the first process that owns its inode, if one does.
pub open spec fn with_process(
    socket: SocketView,
    processes: Seq<ProcessNetworkMetricsView>,
) -> SocketView {
    match owner(processes, socket.inode) {
        Some(process) => SocketView {
            process_name: Some(process.name),
            pid: Some(process.pid),
            ..socket
        },
        None => socket,
    }
}

/// Whether a packet goes from the source of a socket to its destination.
pub open spec fn is_related(socket: SocketView, packet: IpPacketView) -> bool {
    &&& socket.source_ip == Some(packet.source_ip)
    &&& socket.destination_ip == Some(packet.destination_ip)
}

/// Whether a packet can be held against a socket: the addresses that are asked for are known, and a
/// related packet of a known protocol holds its IP header.
pub open spec fn can_filter(socket: SocketView, packet: IpPacketView) -> bool {
    &&& socket.source_ip is Some
    &&& socket.source_ip == Some(packet.source_ip) ==> socket.destination_ip is Some
    &&& is_related(socket, packet) ==> can_carry_transport(packet)
}

/// A socket after a packet has come by: it keeps the transport packet of a related one.
pub open spec fn filtered(socket: SocketView, packet: IpPacketView) -> SocketView {
    if is_related(socket, packet) {
        match transport_packet_of(packet) {
            Ok(transport) => SocketView { packets: socket.packets.push(transport), ..socket },
            Err(_) => socket,
        }
    } else {
        socket
    }
}

/// A socket after a series of packets has come by.
pub open spec fn filtered_all(socket: SocketView, packets: Seq<IpPacketView>) -> SocketView
    decreases packets.len(),
{
    if packets.len() == 0 {
        socket
    } else {
        filtered(filtered_all(socket, packets.drop_last()), packets.last())
    }
}

/// Whether every packet that a socket has kept goes from its source to its destination.
pub open spec fn keeps_own_packets(socket: SocketView) -> bool {
    forall|i: int|
        0 <= i < socket.packets.len() ==> {
            &&& socket.source_ip == Some((#[trigger] socket.packets[i]).source_ip)
            &&& socket.destination_ip == Some(socket.packets[i].destination_ip)
        }
}

/// The direction of traffic between two addresses. Traffic from one local address to another stays
/// on the machine.
pub open spec fn direction_of(
    source_ip: IpAddr,
    destination_ip: IpAddr,
    local_ips: Seq<IpAddr>,
) -> Direction {
    if !local_ips.contains(source_ip) {
        Direction::Incoming
    } else if local_ips.contains(destination_ip) {
        Direction::Local
    } else {
        Direction::Outgoing
    }
}

/// The size in bits of what the application sent in a series of packets.
pub open spec fn packets_size(packets: Seq<TransportLayerPacketView>, protocol: Protocol) -> nat
    decreases packets.len(),
{
    if packets.len() == 0 {
        0
    } else {
        packets_size(packets.drop_last(), protocol) + app_packet_size(packets.last().data, protocol)
    }
}

/// Whether the packets of a socket can be measured: its protocol is known if there are any, each of
/// them can be measured, and their sizes add up to a 64-bit number.
pub open spec fn can_evaluate(socket: SocketView) -> bool {
    &&& socket.packets.len() > 0 ==> socket.protocol is Some
    &&& forall|i: int|
        0 <= i < socket.packets.len() ==> is_measurable(
            (#[trigger] socket.packets[i]).data,
            socket.protocol->0,
        )
    &&& packets_size(socket.packets, socket.protocol->0) <= u64::MAX
}

/// The packets measured so far are no bigger than all of them.
proof fn lemma_fewer_packets_are_smaller(
    packets: Seq<TransportLayerPacketView>,
    count: int,
    protocol: Protocol,
)
    requires
        0 <= count <= packets.len(),
    ensures
        packets_size(packets.take(count), protocol) <= packets_size(packets, protocol),
    decreases packets.len(),
{
    if count == packets.len() {
        assert(packets.take(count) =~= packets);
    } else {
        lemma_fewer_packets_are_smaller(packets.drop_last(), count, protocol);
        assert(packets.drop_last().take(count) =~= packets.take(count));
    }
}

impl Socket {
    /// A socket between two addresses, of which nothing else is known yet.
    pub fn new(
        inode: i32,
        source_ip: IpAddr,
        destination_ip: IpAddr,
        source_port: u32,
        destination_port: u32,
    ) -> (socket: Self)
        ensures
            socket@ == new_socket(inode, source_ip, destination_ip, source_port, destination_port),
    {
        Socket {
            inode,
            process_name: None,
            pid: None,
            protocol: None,
            source_ip: Some(source_ip),
            destination_ip: Some(destination_ip),
            source_port: Some(source_port),
            destination_port: Some(destination_port),
            direction: None,
            packets: Vec::new(),
            app_packets_size: None,
        }
    }

    /// Associates the socket with the process that owns it: the first one among whose inodes that
    /// of the socket is.
    pub fn identify_process(&mut self, processes: Vec<&ProcessNetworkMetrics>)
        requires
            forall|i: int|
                0 <= i < processes@.len() ==> (#[trigger] processes@[i]).sockets_inodes is Some,
        ensures
            final(self)@ == with_process(
                old(self)@,
                processes@.map_values(|process: &ProcessNetworkMetrics| process@),
            ),
    {
        let ghost views = processes@.map_values(|process: &ProcessNetworkMetrics| process@);
        let mut i: usize = 0;
        assert(views.skip(0) =~= views);
        while i < processes.len()
            invariant
                i <= processes@.len(),
                views == processes@.map_values(|process: &ProcessNetworkMetrics| process@),
                forall|k: int|
                    0 <= k < processes@.len() ==> (#[trigger] processes@[k]).sockets_inodes is Some,
                owner(views, self.inode) == owner(views.skip(i as int), self.inode),
                *self == *old(self),
            decreases processes@.len() - i,
        {
            let process = processes[i];
            assert(views[i as int] == process@);
            assert(views.skip(i as int)[0] == process@);
            if process.owns_inode(self.inode) {
                self.process_name = Some(process.name.clone());
                self.pid = Some(process.pid);
                return;
            }
            assert(views.skip(i as int).drop_first() =~= views.skip(i + 1));
            i += 1;
        }
        assert(views.skip(i as int) =~= Seq::empty());
    }

    /// Keeps the transport packet of an IP packet that goes from the source of the socket to its
    /// destination; a packet of another socket or of an unknown protocol is left out.
    pub fn filter_packet(&mut self, packet: &IpPacket)
        requires
            can_filter(old(self)@, packet@),
        ensures
            final(self)@ == filtered(old(self)@, packet@),
    {
        if packet.source_ip == self.source_ip.unwrap() && packet.destination_ip
            == self.destination_ip.unwrap() {
            match TransportLayerPacket::new(packet) {
                Ok(transport) => {
                    let ghost before = packet_views(self.packets@);
                    self.packets.push(transport);
                    assert(packet_views(self.packets@) =~= before.push(transport@));
                },
                Err(_) => {},
            }
        }
    }

    /// Sets the direction of the socket's traffic, seen from the addresses of the machine.
    pub fn set_direction(&mut self, local_ips: &[IpAddr])
        requires
            old(self).source_ip is Some,
            old(self).destination_ip is Some,
        ensures
            final(self)@ == (SocketView {
                direction: Some(
                    direction_of(old(self).source_ip->0, old(self).destination_ip->0, local_ips@),
                ),
                ..old(self)@
            }),
    {
        let source_ip = self.source_ip.unwrap();
        let destination_ip = self.destination_ip.unwrap();
        self.direction = Some(get_direction(&source_ip, &destination_ip, local_ips));
    }

    /// Adds up the sizes of the socket's packets without their headers.
    pub fn evaluate_packets_size(&mut self)
        requires
            can_evaluate(old(self)@),
        ensures
            final(self)@ == (SocketView {
                app_packets_size: Some(
                    packets_size(old(self)@.packets, old(self)@.protocol->0) as u64,
                ),
                ..old(self)@
            }),
    {
        let ghost views = packet_views(self.packets@);
        let ghost protocol = self.protocol->0;
        let mut total_size: u64 = 0;
        let mut i: usize = 0;
        while i < self.packets.len()
            invariant
                *self == *old(self),
                i <= self.packets@.len(),
                views == packet_views(self.packets@),
                protocol == self.protocol->0,
                can_evaluate(self@),
                total_size == packets_size(views.take(i as int), protocol),
            decreases self.packets@.len() - i,
        {
            assert(views[i as int] == self.packets@[i as int]@);
            assert(self@.packets[i as int] == views[i as int]);
            assert(views.take(i + 1).drop_last() =~= views.take(i as int));
            proof {
                lemma_fewer_packets_are_smaller(views, i + 1, protocol);
            }
            let size: u32 = identify_app_packet_size(
                self.packets[i].data.as_slice(),
                self.protocol.unwrap(),
            );
            total_size += size as u64;
            i += 1;
        }
        assert(views.take(i as int) =~= views);
        self.app_packets_size = Some(total_size);
    }
}

/// Identifies the direction of traffic, in order to allocate it to a process that receives or
/// transmits bytes.
pub fn get_direction(source_ip: &IpAddr, destination_ip: &IpAddr, local_ips: &[IpAddr]) -> (direction:
    Direction)
    ensures
        direction == direction_of(*source_ip, *destination_ip, local_ips@),
{
    if is_among(source_ip, local_ips) {
        if is_among(destination_ip, local_ips) {
            Direction::Local
        } else {
            Direction::Outgoing
        }
    } else {
        Direction::Incoming
    }
}

/// A socket that starts with packets of its own keeps only such, whatever packets come by, and
/// nothing else about it changes.
pub proof fn law_socket_keeps_only_related_packets(
    socket: SocketView,
    packets: Seq<IpPacketView>,
)
    requires
        keeps_own_packets(socket),
    ensures
        keeps_own_packets(filtered_all(socket, packets)),
        filtered_all(socket, packets) == (SocketView {
            packets: filtered_all(socket, packets).packets,
            ..socket
        }),
    decreases packets.len(),
{
    if packets.len() > 0 {
        law_socket_keeps_only_related_packets(socket, packets.drop_last());
    }
}

/// A new socket has only packets of its own: none.
pub proof fn law_new_socket_keeps_own_packets(
    inode: i32,
    source_ip: IpAddr,
    destination_ip: IpAddr,
    source_port: u32,
    destination_port: u32,
)
    ensures
        keeps_own_packets(
            new_socket(inode, source_ip, destination_ip, source_port, destination_port),
        ),
{
}

/// Seen from the other end, outgoing traffic is incoming and local traffic is local.
pub proof fn law_direction_of_the_reply(
    source_ip: IpAddr,
    destination_ip: IpAddr,
    local_ips: Seq<IpAddr>,
)
    ensures
        direction_of(source_ip, destination_ip, local_ips) == Direction::Outgoing ==> direction_of(
            destination_ip,
            source_ip,
            local_ips,
        ) == Direction::Incoming,
        direction_of(source_ip, destination_ip, local_ips) == Direction::Local ==> direction_of(
            destination_ip,
            source_ip,
            local_ips,
        ) == Direction::Local,
{
}

/// The sizes of two series of packets add up.
pub proof fn law_packet_sizes_add_up(
    first: Seq<TransportLayerPacketView>,
    second: Seq<TransportLayerPacketView>,
    protocol: Protocol,
)
    ensures
        packets_size(first + second, protocol) == packets_size(first, protocol) + packets_size(
            second,
            protocol,
        ),
    decreases second.len(),
{
    if second.len() == 0 {
        assert(first + second =~= first);
    } else {
        law_packet_sizes_add_up(first, second.drop_last(), protocol);
        assert((first + second).drop_last() =~= first + second.drop_last());
    }
}

/// A socket whose inode belongs to one process only is associated with that process, wherever it
/// stands among the others.
pub proof fn law_unique_owner_is_found(
    socket: SocketView,
    processes: Seq<ProcessNetworkMetricsView>,
    index: int,
)
    requires
        0 <= index < processes.len(),
        owns(processes[index], socket.inode),
        forall|i: int|
            0 <= i < processes.len() && i != index ==> !owns(#[trigger] processes[i], socket.inode),
    ensures
        with_process(socket, processes).process_name == Some(processes[index].name),
        with_process(socket, processes).pid == Some(processes[index].pid),
{
    law_owner_is_the_first_to_own(processes, socket.inode);
}

/// A packet adds to the size of a socket's packets what the application sent in it, if it is
/// related to the socket and of a known protocol; any other packet adds nothing.
pub proof fn law_related_packets_add_their_size(
    socket: SocketView,
    packet: IpPacketView,
    protocol: Protocol,
)
    ensures
        packets_size(filtered(socket, packet).packets, protocol) == packets_size(
            socket.packets,
            protocol,
        ) + (if is_related(socket, packet) && packet.protocol != Protocol::Unknown {
            app_packet_size(packet.data.skip(IP_HEADER_LENGTH as int), protocol)
        } else {
            0
        }),
{
    if is_related(socket, packet) && packet.protocol != Protocol::Unknown {
        let after = filtered(socket, packet).packets;
        assert(after.drop_last() =~= socket.packets);
    }
}

/// A packet that goes from the source of a socket to its destination and is of TCP or UDP is kept as
/// the last of the socket's packets, with its protocol, its addresses and all of its bytes behind
/// the IP header of 20. Any other packet leaves the socket as it is. Nothing but the packets changes.
pub proof fn law_filtering_a_packet(socket: SocketView, packet: IpPacketView)
    requires
        packet.data.len() <= usize::MAX,
    ensures
        ({
            let after = filtered(socket, packet);
            let kept = socket.source_ip == Some(packet.source_ip) && socket.destination_ip == Some(
                packet.destination_ip,
            ) && (packet.protocol == Protocol::Tcp || packet.protocol == Protocol::Udp);
            &&& kept && packet.data.len() >= 20 ==> {
                let last = after.packets[socket.packets.len() as int];
                &&& after.packets.len() == socket.packets.len() + 1
                &&& forall|i: int|
                    0 <= i < socket.packets.len() ==> after.packets[i] == socket.packets[i]
                &&& last.protocol == packet.protocol
                &&& last.source_ip == packet.source_ip
                &&& last.destination_ip == packet.destination_ip
                &&& last.source_address is None
                &&& last.destination_address is None
                &&& last.size == packet.data.len() - 20
                &&& last.data == packet.data.skip(20)
            }
            &&& !kept ==> after.packets == socket.packets
            &&& after == (SocketView { packets: after.packets, ..socket })
        }),
{
}

/// A packet can be held against every socket that has both addresses, if it is at least as long as
/// an IP header; and however short it is, if its source is not that of the socket.
pub proof fn law_packets_that_can_be_filtered(socket: SocketView, packet: IpPacketView)
    requires
        socket.source_ip is Some,
    ensures
        socket.destination_ip is Some && packet.data.len() >= 20 ==> can_filter(socket, packet),
        socket.destination_ip is Some && packet.protocol == Protocol::Unknown ==> can_filter(
            socket,
            packet,
        ),
        socket.destination_ip is Some && socket.destination_ip->0 != packet.destination_ip
            ==> can_filter(socket, packet),
        socket.source_ip->0 != packet.source_ip ==> can_filter(socket, packet),
{
}

/// The packets of other sockets make no difference: a packet with another source or another
/// destination leaves a socket as it is, wherever it stands among those that come by.
pub proof fn law_packets_of_other_sockets_make_no_difference(
    socket: SocketView,
    before: Seq<IpPacketView>,
    packet: IpPacketView,
    after: Seq<IpPacketView>,
)
    requires
        socket.source_ip != Some(packet.source_ip) || socket.destination_ip != Some(
            packet.destination_ip,
        ),
    ensures
        filtered_all(socket, before + seq![packet] + after) == filtered_all(socket, before + after),
    decreases after.len(),
{
    if after.len() == 0 {
        lemma_filtering_keeps_the_addresses(socket, before);
        assert((before + seq![packet] + after).drop_last() =~= before);
        assert((before + seq![packet] + after).last() == packet);
        assert(before + after =~= before);
    } else {
        law_packets_of_other_sockets_make_no_difference(socket, before, packet, after.drop_last());
        assert((before + seq![packet] + after).drop_last() =~= before + seq![packet]
            + after.drop_last());
        assert((before + after).drop_last() =~= before + after.drop_last());
    }
}

proof fn lemma_filtering_keeps_the_addresses(socket: SocketView, packets: Seq<IpPacketView>)
    ensures
        filtered_all(socket, packets).source_ip == socket.source_ip,
        filtered_all(socket, packets).destination_ip == socket.destination_ip,
    decreases packets.len(),
{
    if packets.len() > 0 {
        lemma_filtering_keeps_the_addresses(socket, packets.drop_last());
    }
}

/// A new socket holds the inode, the addresses and the ports that it was made with and nothing else.
pub proof fn law_new_socket_holds_what_it_was_made_with(
    inode: i32,
    source_ip: IpAddr,
    destination_ip: IpAddr,
    source_port: u32,
    destination_port: u32,
)
    ensures
        ({
            let socket = new_socket(
                inode,
                source_ip,
                destination_ip,
                source_port,
                destination_port,
            );
            &&& socket.inode == inode
            &&& socket.source_ip == Some(source_ip)
            &&& socket.destination_ip == Some(destination_ip)
            &&& socket.source_port == Some(source_port)
            &&& socket.destination_port == Some(destination_port)
            &&& socket.process_name is None
            &&& socket.pid is None
            &&& socket.protocol is None
            &&& socket.direction is None
            &&& socket.packets.len() == 0
            &&& socket.app_packets_size is None
        }),
{
}

/// A socket is associated with the first process among whose inodes its own is: it takes over the
/// name and the pid of that process, and nothing else about it changes.
pub proof fn law_first_owner_is_associated(
    socket: SocketView,
    processes: Seq<ProcessNetworkMetricsView>,
    index: int,
)
    requires
        0 <= index < processes.len(),
        processes[index].sockets_inodes is Some,
        processes[index].sockets_inodes->0.contains(socket.inode),
        forall|i: int|
            0 <= i < index ==> (#[trigger] processes[i]).sockets_inodes is Some
                && !processes[i].sockets_inodes->0.contains(socket.inode),
    ensures
        with_process(socket, processes).process_name == Some(processes[index].name),
        with_process(socket, processes).pid == Some(processes[index].pid),
        with_process(socket, processes) == (SocketView {
            process_name: with_process(socket, processes).process_name,
            pid: with_process(socket, processes).pid,
            ..socket
        }),
    decreases index,
{
    if index > 0 {
        let rest = processes.drop_first();
        assert(processes[0].sockets_inodes is Some);
        assert forall|i: int| 0 <= i < index - 1 implies (#[trigger] rest[i]).sockets_inodes is Some
            && !rest[i].sockets_inodes->0.contains(socket.inode) by {
            assert(rest[i] == processes[i + 1]);
        }
        law_first_owner_is_associated(socket, rest, index - 1);
    }
}

/// A socket whose inode is among those of no process stays as it is.
pub proof fn law_socket_without_owner_stays_as_it_is(
    socket: SocketView,
    processes: Seq<ProcessNetworkMetricsView>,
)
    requires
        forall|i: int|
            0 <= i < processes.len() ==> (#[trigger] processes[i]).sockets_inodes is Some
                && !processes[i].sockets_inodes->0.contains(socket.inode),
    ensures
        with_process(socket, processes) == socket,
    decreases processes.len(),
{
    if processes.len() > 0 {
        let rest = processes.drop_first();
        assert(processes[0].sockets_inodes is Some);
        assert forall|i: int|
            0 <= i < rest.len() implies (#[trigger] rest[i]).sockets_inodes is Some
            && !rest[i].sockets_inodes->0.contains(socket.inode) by {
            assert(rest[i] == processes[i + 1]);
        }
        law_socket_without_owner_stays_as_it_is(socket, rest);
    }
}

/// Traffic is incoming exactly when its source is no local address, local when its source and its
/// destination are, and outgoing when only its source is.
pub proof fn law_directions(source_ip: IpAddr, destination_ip: IpAddr, local_ips: Seq<IpAddr>)
    ensures
        direction_of(source_ip, destination_ip, local_ips) == Direction::Incoming <==> (forall|i: int|
            0 <= i < local_ips.len() ==> local_ips[i] != source_ip),
        direction_of(source_ip, destination_ip, local_ips) == Direction::Local <==> (exists|i: int|
            0 <= i < local_ips.len() && local_ips[i] == source_ip) && (exists|i: int|
            0 <= i < local_ips.len() && local_ips[i] == destination_ip),
        direction_of(source_ip, destination_ip, local_ips) == Direction::Outgoing <==> (exists|i: int|
            0 <= i < local_ips.len() && local_ips[i] == source_ip) && (forall|i: int|
            0 <= i < local_ips.len() ==> local_ips[i] != destination_ip),
{
}

/// One more TCP packet adds its bits less 32 for each word of the header that its byte 12 announces.
pub proof fn law_tcp_packet_adds_its_bits(
    packets: Seq<TransportLayerPacketView>,
    packet: TransportLayerPacketView,
    words: nat,
    low: nat,
)
    requires
        words < 16,
        low < 16,
        13 <= packet.data.len() < 0x2000_0000,
        packet.data[12] == words * 16 + low,
        words * 4 <= packet.data.len(),
    ensures
        packets_size(packets.push(packet), Protocol::Tcp) == packets_size(packets, Protocol::Tcp)
            + packet.data.len() * 8 - words * 32,
{
    law_tcp_packets_are_measured(packet.data, words, low);
    assert(packets.push(packet).drop_last() =~= packets);
}

/// One more UDP packet adds its bits less 16.
pub proof fn law_udp_packet_adds_its_bits(
    packets: Seq<TransportLayerPacketView>,
    packet: TransportLayerPacketView,
)
    requires
        2 <= packet.data.len() < 0x2000_0000,
    ensures
        packets_size(packets.push(packet), Protocol::Udp) == packets_size(packets, Protocol::Udp)
            + packet.data.len() * 8 - 16,
{
    law_udp_packets_are_measured(packet.data);
    assert(packets.push(packet).drop_last() =~= packets);
}

/// One more packet of any length adds what it measures by itself, and keeps a socket measurable if
/// it is so itself and the sum is still a 64-bit number.
pub proof fn law_one_more_packet_is_measured(
    socket: SocketView,
    packet: TransportLayerPacketView,
    protocol: Protocol,
)
    requires
        socket.protocol == Some(protocol),
        can_evaluate(socket),
        is_measurable(packet.data, protocol),
        packets_size(socket.packets, protocol) + app_packet_size(packet.data, protocol) <= u64::MAX,
    ensures
        packets_size(socket.packets.push(packet), protocol) == packets_size(
            socket.packets,
            protocol,
        ) + app_packet_size(packet.data, protocol),
        can_evaluate(SocketView { packets: socket.packets.push(packet), ..socket }),
{
    let grown = socket.packets.push(packet);
    assert(grown.drop_last() =~= socket.packets);
    assert forall|i: int| 0 <= i < grown.len() implies is_measurable(
        (#[trigger] grown[i]).data,
        protocol,
    ) by {
        if i < socket.packets.len() {
            assert(grown[i] == socket.packets[i]);
        }
    }
}

/// A socket without packets can be measured, whether its protocol is known or not, and its packets
/// measure nothing.
pub proof fn law_no_packets_measure_nothing(socket: SocketView)
    requires
        socket.packets.len() == 0,
    ensures
        can_evaluate(socket),
        forall|protocol: Protocol| packets_size(socket.packets, protocol) == 0,
{
}

/// A TCP socket can be measured if each of its packets is as long as the header that it announces,
/// and a UDP socket if each of its packets is two bytes long, as far as the sizes add up to a 64-bit
/// number.
pub proof fn law_sockets_that_can_be_measured(socket: SocketView)
    requires
        socket.protocol == Some(Protocol::Tcp) || socket.protocol == Some(Protocol::Udp),
        forall|i: int|
            0 <= i < socket.packets.len() ==> {
                let data = (#[trigger] socket.packets[i]).data;
                &&& data.len() < 0x2000_0000
                &&& socket.protocol == Some(Protocol::Tcp) ==> data.len() >= 13 && data.len()
                    >= data[12] / 16 * 4
                &&& socket.protocol == Some(Protocol::Udp) ==> data.len() >= 2
            },
        packets_size(socket.packets, socket.protocol->0) <= u64::MAX,
    ensures
        can_evaluate(socket),
{
    assert forall|i: int| 0 <= i < socket.packets.len() implies is_measurable(
        (#[trigger] socket.packets[i]).data,
        socket.protocol->0,
    ) by {
        let data = socket.packets[i].data;
        if socket.protocol == Some(Protocol::Tcp) {
            law_tcp_packets_are_measured(data, data[12] as nat / 16, data[12] as nat % 16);
        } else {
            law_udp_packets_are_measured(data);
        }
    }
}

/// The view of a socket shows all of its fields, and each of its packets.
pub proof fn law_socket_view(socket: Socket)
    ensures
        socket@.inode == socket.inode,
        socket.process_name matches Some(name) ==> socket@.process_name == Some(name@),
        socket.process_name is None ==> socket@.process_name is None,
        socket@.pid == socket.pid,
        socket@.protocol == socket.protocol,
        socket@.source_ip == socket.source_ip,
        socket@.destination_ip == socket.destination_ip,
        socket@.source_port == socket.source_port,
        socket@.destination_port == socket.destination_port,
        socket@.direction == socket.direction,
        socket@.packets.len() == socket.packets@.len(),
        forall|i: int|
            0 <= i < socket.packets@.len() ==> socket@.packets[i] == (#[trigger] socket.packets@[i])@,
        socket@.app_packets_size == socket.app_packets_size,
{
}

/// The views of sockets are those of each of them, in their order.
pub proof fn law_socket_views(sockets: Seq<Socket>)
    ensures
        socket_views(sockets).len() == sockets.len(),
        forall|i: int|
            0 <= i < sockets.len() ==> socket_views(sockets)[i] == (#[trigger] sockets[i])@,
{
}

} // verus!

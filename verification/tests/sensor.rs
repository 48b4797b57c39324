use scaphandre::address::{is_among, read_big_endian, IpAddr, IpNetwork, Ipv4Addr, Ipv6Addr};
use scaphandre::frame::{EtherType, Packet, PacketType};
use scaphandre::interface::{NetworkData, NetworkInterface};
use scaphandre::ip::{IpPacket, IpVersion, PacketError, Protocol};
use scaphandre::process::{can_read_links, ProcessNetworkMetrics};
use scaphandre::socket::{get_direction, Direction, Socket};
use scaphandre::table::{can_find_inodes, find_inodes_for_sockets, read_local_entries};
use scaphandre::transport::{identify_app_packet_size, TransportLayerPacket};

const HEADER: &str =
    "  sl  local_address rem_address   st tx_queue rx_queue tr tm->when retrnsmt   uid  timeout inode\n";

fn row(index: u32, source: &str, destination: &str, inode: i32) -> String {
    format!(
        "   {}: {} {} 0A 00000000:00000000 00:00000000 00000000     0        0 {} 1 0 100 0 0 10 0\n",
        index, source, destination, inode
    )
}

fn v4(a: u8, b: u8, c: u8, d: u8) -> IpAddr {
    IpAddr::V4(Ipv4Addr::new(a, b, c, d))
}

fn interface(addresses: &[IpAddr]) -> NetworkInterface {
    let data = NetworkData {
        total_received: 7,
        total_transmitted: 9,
        ip_networks: addresses.iter().map(|addr| IpNetwork { addr: *addr, prefix: 8 }).collect(),
    };
    NetworkInterface::new((&String::from("lo"), &data))
}

fn ipv4_packet(protocol: u8, source: [u8; 4], destination: [u8; 4], content: &[u8]) -> Vec<u8> {
    let mut data = vec![0x45, 0, 0, 0, 0, 0, 0, 0, 64, protocol, 0, 0];
    data.extend(source);
    data.extend(destination);
    data.extend(content);
    data
}

fn socket(direction: Option<Direction>, size: Option<u64>) -> Socket {
    let mut socket = Socket::new(1, v4(127, 0, 0, 1), v4(8, 8, 8, 8), 1, 2);
    socket.direction = direction;
    socket.app_packets_size = size;
    socket
}

fn links(texts: &[&str]) -> Vec<String> {
    texts.iter().map(|text| text.to_string()).collect()
}

#[test]
fn bytes_are_read_in_network_order() {
    assert_eq!(read_big_endian(0x12, 0x34), 0x1234);
    assert_eq!(read_big_endian(0xff, 0xff), u16::from_be_bytes([0xff, 0xff]));
}

#[test]
fn datalink_types_tell_the_packet_type() {
    for datalink_type in -1..300 {
        let expected = match datalink_type {
            1 => PacketType::Ethernet,
            12 | 101 | 228 | 229 => PacketType::RawIp,
            _ => PacketType::Unknown,
        };
        let packet = Packet::new(&datalink_type, &[1, 2]);
        assert_eq!(packet.identify(), expected);
        assert_eq!(packet.packet_type, Some(expected));
        assert_eq!(packet.data, [1, 2]);
        assert_eq!(packet.datalink_type, datalink_type);
    }
}

#[test]
fn payloads_are_what_follows_the_header() {
    let content = ipv4_packet(17, [127, 0, 0, 1], [8, 8, 8, 8], &[1, 2, 3, 4]);
    let mut plain = vec![0; 12];
    plain.extend([0x08, 0x00]);
    plain.extend(&content);
    let mut tagged = vec![0; 12];
    tagged.extend([0x81, 0x00, 0, 5, 0x08, 0x00]);
    tagged.extend(&content);

    assert_eq!(Packet::new(&1, &plain).parse_ethertype(), EtherType::NotVlanTagged);
    assert_eq!(Packet::new(&1, &tagged).parse_ethertype(), EtherType::VlanTagged);
    assert_eq!(Packet::new(&1, &plain).payload(), content);
    assert_eq!(Packet::new(&1, &tagged).payload(), content);
    assert_eq!(Packet::new(&101, &content).payload(), content);
    assert_eq!(Packet::new(&1, &plain[..14]).payload(), Vec::<u8>::new());

    let read = IpPacket::new(&Packet::new(&1, &tagged).payload()).unwrap();
    assert_eq!(read.source_ip, IpPacket::new(&content).unwrap().source_ip);
    assert_eq!(read.data, content);
}

#[test]
fn ipv4_addresses_are_read_back() {
    let data = ipv4_packet(6, [1, 2, 3, 4], [5, 6, 7, 8], &[9]);
    let packet = IpPacket::new(&data).unwrap();
    assert_eq!(packet.version, IpVersion::Ipv4);
    assert_eq!(packet.protocol, Protocol::Tcp);
    assert_eq!(packet.source_ip, v4(1, 2, 3, 4));
    assert_eq!(packet.destination_ip, v4(5, 6, 7, 8));
    assert_eq!(packet.data, data);
}

#[test]
fn ipv6_addresses_are_read_back() {
    let mut data = vec![0x60, 0, 0, 0, 0, 0, 17, 64];
    data.extend((1..=32).collect::<Vec<u8>>());
    let packet = IpPacket::new(&data).unwrap();
    assert_eq!(packet.version, IpVersion::Ipv6);
    assert_eq!(packet.protocol, Protocol::Udp);
    assert_eq!(
        packet.source_ip,
        IpAddr::V6(Ipv6Addr::new(
            0x102, 0x304, 0x506, 0x708, 0x90a, 0xb0c, 0xd0e, 0xf10
        ))
    );
    assert_eq!(
        packet.destination_ip,
        IpAddr::V6(Ipv6Addr::new(
            0x1112, 0x1314, 0x1516, 0x1718, 0x191a, 0x1b1c, 0x1d1e, 0x1f20
        ))
    );
}

#[test]
fn ipv4_options_are_refused_whatever_the_header_length() {
    for length in 0..16 {
        let mut data = ipv4_packet(6, [1, 2, 3, 4], [5, 6, 7, 8], &[]);
        data[0] = 0x40 + length;
        let packet = IpPacket::new(&data);
        if length == 5 {
            assert!(packet.is_ok());
        } else {
            assert_eq!(packet.unwrap_err(), PacketError::OptionsFieldError);
        }
    }
    assert_eq!(IpPacket::new(&[0x46]).unwrap_err(), PacketError::OptionsFieldError);
}

#[test]
fn only_tcp_and_udp_give_transport_packets() {
    for number in 0..=255 {
        let data = ipv4_packet(number, [1, 2, 3, 4], [5, 6, 7, 8], &[0, 80, 1, 0]);
        let packet = TransportLayerPacket::new(&IpPacket::new(&data).unwrap());
        match number {
            6 => assert_eq!(packet.unwrap().protocol, Protocol::Tcp),
            17 => assert_eq!(packet.unwrap().protocol, Protocol::Udp),
            _ => assert_eq!(packet.unwrap_err(), PacketError::FilteredPacket),
        }
    }
}

#[test]
fn parsing_fills_in_the_addresses_once() {
    let data = ipv4_packet(6, [1, 2, 3, 4], [5, 6, 7, 8], &[0, 80, 0x1f, 0x90, 7]);
    let mut packet = TransportLayerPacket::new(&IpPacket::new(&data).unwrap()).unwrap();
    assert_eq!(packet.source_address, None);
    assert_eq!(packet.destination_address, None);
    assert_eq!(packet.size, 5);
    assert_eq!(packet.data, [0, 80, 0x1f, 0x90, 7]);

    packet.parse();
    assert_eq!(packet.source_address.unwrap().ip(), v4(1, 2, 3, 4));
    assert_eq!(packet.source_address.unwrap().port(), 80);
    assert_eq!(packet.destination_address.unwrap().ip(), v4(5, 6, 7, 8));
    assert_eq!(packet.destination_address.unwrap().port(), 8080);
    assert_eq!(packet.size, 5);

    let once = packet.clone();
    packet.parse();
    assert_eq!(packet, once);
}

#[test]
fn packet_sizes_are_counted_without_the_header() {
    let mut data = vec![0; 40];
    data[12] = 0x50;
    assert_eq!(identify_app_packet_size(&data, Protocol::Tcp), 40 * 8 - 5 * 32);
    data[12] = 0xaf;
    assert_eq!(identify_app_packet_size(&data, Protocol::Tcp), 0);
    assert_eq!(identify_app_packet_size(&data, Protocol::Udp), 40 * 8 - 16);
    assert_eq!(identify_app_packet_size(&[0, 0], Protocol::Udp), 0);
}

#[test]
fn sockets_keep_only_their_own_packets() {
    let mut own = Socket::new(1, v4(127, 0, 0, 1), v4(8, 8, 8, 8), 1, 2);
    for (number, source, destination) in [
        (6, [127, 0, 0, 1], [8, 8, 8, 8]),
        (6, [8, 8, 8, 8], [127, 0, 0, 1]),
        (1, [127, 0, 0, 1], [8, 8, 8, 8]),
        (6, [127, 0, 0, 1], [8, 8, 4, 4]),
        (17, [127, 0, 0, 1], [8, 8, 8, 8]),
    ] {
        let data = ipv4_packet(number, source, destination, &[1, 2, 3, 4]);
        own.filter_packet(&IpPacket::new(&data).unwrap());
    }
    assert_eq!(own.packets.len(), 2);
    for packet in own.packets.iter() {
        assert_eq!(Some(packet.source_ip), own.source_ip);
        assert_eq!(Some(packet.destination_ip), own.destination_ip);
    }
    assert_eq!(own.packets[0].protocol, Protocol::Tcp);
    assert_eq!(own.packets[1].protocol, Protocol::Udp);
}

#[test]
fn directions_of_a_reply() {
    let local = [v4(127, 0, 0, 1), v4(10, 0, 0, 2)];
    let remote = v4(8, 8, 8, 8);
    assert!(is_among(&local[1], &local));
    assert!(!is_among(&remote, &local));
    assert_eq!(get_direction(&local[0], &remote, &local), Direction::Outgoing);
    assert_eq!(get_direction(&remote, &local[0], &local), Direction::Incoming);
    assert_eq!(get_direction(&local[0], &local[1], &local), Direction::Local);
    assert_eq!(get_direction(&local[1], &local[0], &local), Direction::Local);
    assert_eq!(get_direction(&remote, &remote, &local), Direction::Incoming);
}

#[test]
fn a_socket_without_packets_has_size_zero() {
    let mut empty = socket(None, None);
    empty.evaluate_packets_size();
    assert_eq!(empty.app_packets_size, Some(0));
}

#[test]
fn packet_sizes_of_a_socket_add_up() {
    let mut both = socket(None, None);
    both.protocol = Some(Protocol::Udp);
    for length in [2, 10, 100] {
        let data = ipv4_packet(17, [127, 0, 0, 1], [8, 8, 8, 8], &vec![0; length]);
        both.filter_packet(&IpPacket::new(&data).unwrap());
    }
    both.evaluate_packets_size();
    assert_eq!(both.app_packets_size, Some(0 + (80 - 16) + (800 - 16)));
}

#[test]
fn the_first_owner_of_an_inode_is_found() {
    let first = ProcessNetworkMetrics::new("first", 1, &links(&["socket:[5]"]));
    let second = ProcessNetworkMetrics::new("second", 2, &links(&["socket:[6]", "socket:[7]"]));
    let third = ProcessNetworkMetrics::new("third", 3, &links(&["socket:[7]"]));

    let mut found = Socket::new(7, v4(127, 0, 0, 1), v4(8, 8, 8, 8), 1, 2);
    found.identify_process(vec![&first, &second, &third]);
    assert_eq!(found.process_name.as_deref(), Some("second"));
    assert_eq!(found.pid, Some(2));

    let mut unique = Socket::new(6, v4(127, 0, 0, 1), v4(8, 8, 8, 8), 1, 2);
    unique.identify_process(vec![&third, &first, &second]);
    assert_eq!(unique.pid, Some(2));

    let mut orphan = Socket::new(8, v4(127, 0, 0, 1), v4(8, 8, 8, 8), 1, 2);
    orphan.identify_process(vec![&first, &second, &third]);
    assert_eq!(orphan.process_name, None);
    assert_eq!(orphan.pid, None);
}

#[test]
fn local_sockets_do_not_count() {
    let mut process = ProcessNetworkMetrics::unidentified("firefox", 123);
    process.update_traffic(&[
        socket(Some(Direction::Incoming), Some(10)),
        socket(Some(Direction::Local), Some(1000)),
        socket(Some(Direction::Local), None),
        socket(None, None),
        socket(Some(Direction::Outgoing), Some(5)),
        socket(Some(Direction::Incoming), Some(1)),
    ]);
    assert_eq!(process.total_received_bytes, 11);
    assert_eq!(process.total_transmitted_bytes, 5);
    assert_eq!(process.pid, 123);
    assert_eq!(process.name, "firefox");
    assert_eq!(process.sockets_inodes, None);
}

#[test]
fn traffic_can_be_counted_in_parts() {
    let sockets = [
        socket(Some(Direction::Incoming), Some(10)),
        socket(Some(Direction::Outgoing), Some(5)),
        socket(Some(Direction::Incoming), Some(7)),
    ];
    let mut whole = ProcessNetworkMetrics::unidentified("a", 1);
    whole.update_traffic(&sockets);
    let mut parts = ProcessNetworkMetrics::unidentified("a", 1);
    parts.update_traffic(&sockets[..1]);
    let received = parts.total_received_bytes;
    parts.update_traffic(&sockets[1..]);
    assert!(parts.total_received_bytes >= received);
    assert_eq!(parts.total_received_bytes, whole.total_received_bytes);
    assert_eq!(parts.total_transmitted_bytes, whole.total_transmitted_bytes);
    assert_eq!(whole.total_received_bytes, 17);
}

#[test]
fn the_order_of_sockets_does_not_matter() {
    let mut sockets = vec![
        socket(Some(Direction::Incoming), Some(10)),
        socket(Some(Direction::Outgoing), Some(5)),
        socket(Some(Direction::Incoming), Some(7)),
    ];
    let mut one = ProcessNetworkMetrics::unidentified("a", 1);
    one.update_traffic(&sockets);
    sockets.reverse();
    let mut other = ProcessNetworkMetrics::unidentified("a", 1);
    other.update_traffic(&sockets);
    assert_eq!(one.total_received_bytes, 17);
    assert_eq!(one.total_transmitted_bytes, 5);
    assert_eq!(one.total_received_bytes, other.total_received_bytes);
    assert_eq!(one.total_transmitted_bytes, other.total_transmitted_bytes);
}

#[test]
fn white_space_around_a_line_makes_no_difference() {
    let plain = row(0, "0100007F:0277", "08080808:01BB", 11);
    let padded = format!("{}\t  {}    \t \n", HEADER, plain.trim());
    assert_eq!(find_inodes_for_sockets(&padded), [11]);
}

#[test]
fn the_order_of_links_does_not_matter() {
    let one = ProcessNetworkMetrics::new(
        "a",
        1,
        &links(&["socket:[3]", "socket:[-2]", "socket:[3]", "/dev/null", "socket:[10]"]),
    );
    let mut other = ProcessNetworkMetrics::unidentified("a", 1);
    assert_eq!(other.sockets_inodes, None);
    other.identify_psock_inodes(&links(&[
        "/dev/null",
        "socket:[10]",
        "socket:[3]",
        "socket:[3]",
        "socket:[-2]",
    ]));
    assert_eq!(one.sockets_inodes, Some(vec![-2, 3, 3, 10]));
    assert_eq!(one.sockets_inodes, other.sockets_inodes);
    assert!(one.owns_inode(10));
    assert!(!one.owns_inode(11));
    assert!(!ProcessNetworkMetrics::unidentified("a", 1).owns_inode(10));
}

#[test]
fn links_without_sockets_give_no_inodes() {
    let process = ProcessNetworkMetrics::new("a", 1, &links(&["pipe:[1]", "sock:[2]", ""]));
    assert_eq!(process.sockets_inodes, Some(vec![]));
}

#[test]
fn unreadable_links_are_told() {
    assert!(can_read_links(&links(&["socket:[1]", "/home/socket", "anon_inode:[eventfd]"])));
    for bad in ["socket", "socket:", "socket:[", "socket:[]", "socket:[1", "socket:[x]", "socket1"] {
        assert!(!can_read_links(&links(&["socket:[1]", bad])), "{}", bad);
    }
}

#[test]
fn sockets_of_other_addresses_are_left_out() {
    let mut table = String::from(HEADER);
    table.push_str(&row(0, "0100007F:0277", "08080808:01BB", 11));
    table.push_str(&row(1, "0200000A:0016", "00000000:0000", 12));
    table.push_str(&row(2, "0100007F:0050", "0100007F:1F90", 13));

    let mut local = interface(&[v4(127, 0, 0, 1)]);
    assert!(local.can_identify_sockets(&table));
    local.identify_sockets(&table);
    assert_eq!(local.sockets.len(), 2);
    assert_eq!(local.name, "lo");
    assert_eq!(local.total_received_bytes, 7);
    assert_eq!(local.total_transmitted_bytes, 9);

    let first = &local.sockets[0];
    assert_eq!(first.inode, 11);
    assert_eq!(first.source_ip, Some(v4(127, 0, 0, 1)));
    assert_eq!(first.destination_ip, Some(v4(8, 8, 8, 8)));
    assert_eq!(first.source_port, Some(631));
    assert_eq!(first.destination_port, Some(443));
    assert_eq!(first.process_name, None);
    assert_eq!(first.pid, None);
    assert_eq!(first.protocol, None);
    assert_eq!(first.direction, None);
    assert_eq!(first.packets.len(), 0);
    assert_eq!(first.app_packets_size, None);
    assert_eq!(local.sockets[1].inode, 13);

    local.identify_sockets(&table);
    assert_eq!(local.sockets.len(), 4);
    assert_eq!(local.sockets[0].inode, 11);
    assert_eq!(local.sockets[3].inode, 13);

    let local_ips = local.local_ips();
    for socket in local.sockets.iter_mut() {
        socket.set_direction(&local_ips);
    }
    assert_eq!(local.sockets[0].direction, Some(Direction::Outgoing));
    assert_eq!(local.sockets[1].direction, Some(Direction::Local));
}

#[test]
fn all_local_sockets_are_all_sockets() {
    let mut table = String::from(HEADER);
    table.push_str(&row(0, "0100007F:0277", "08080808:01BB", 11));
    table.push_str(&row(1, "0200000A:0016", "00000000:0000", 12));
    let entries = read_local_entries(&table, &[v4(127, 0, 0, 1), v4(10, 0, 0, 2)]).unwrap();
    let inodes: Vec<i32> = entries.iter().map(|entry| entry.inode).collect();
    assert_eq!(inodes, [11, 12]);
    assert_eq!(inodes, find_inodes_for_sockets(&table));
}

#[test]
fn ipv6_tables_are_read() {
    let mut table = String::from(HEADER);
    table.push_str(&row(
        0,
        "00000000000000000000000001000000:0277",
        "00000000000000000000000000000000:0000",
        21,
    ));
    let address = IpAddr::V6(Ipv6Addr::new(0, 0, 0, 0, 0, 0, 256, 0));
    let mut local = interface(&[address]);
    local.identify_sockets(&table);
    assert_eq!(local.sockets.len(), 1);
    assert_eq!(local.sockets[0].source_ip, Some(address));
    assert_eq!(local.sockets[0].inode, 21);
}

#[test]
fn tables_with_carriage_returns_are_read() {
    let mut table = String::from(HEADER);
    table.push_str(&row(0, "0100007F:0277", "08080808:01BB", 11));
    let table = table.replace('\n', "\r\n");
    assert_eq!(find_inodes_for_sockets(&table), [11]);
}

#[test]
fn a_header_alone_lists_no_sockets() {
    assert_eq!(find_inodes_for_sockets(HEADER), Vec::<i32>::new());
    let mut local = interface(&[v4(127, 0, 0, 1)]);
    local.identify_sockets(HEADER);
    assert_eq!(local.sockets.len(), 0);
}

#[test]
fn unreadable_tables_are_told() {
    let local = interface(&[v4(127, 0, 0, 1)]);
    assert!(!can_find_inodes(""));
    assert!(!local.can_identify_sockets(""));

    let short = format!("{}   0: 0200000A:0277\n", HEADER);
    assert!(!can_find_inodes(&short));
    assert!(local.can_identify_sockets(&short));

    let local_short = format!("{}   0: 0100007F:0277\n", HEADER);
    assert!(!local.can_identify_sockets(&local_short));

    for (source, destination) in [
        ("0100007F", "08080808:01BB"),
        ("0100007F:0277", "08080808"),
        ("0100007F:277", "08080808:01BB"),
        ("0100007F:0277", "0808080:01BB"),
        ("0100007X:0277", "08080808:01BB"),
        (":0277", "08080808:01BB"),
    ] {
        let table = format!("{}{}", HEADER, row(0, source, destination, 11));
        assert!(!local.can_identify_sockets(&table), "{} {}", source, destination);
        assert!(can_find_inodes(&table));
    }
    let blank = format!("{}\n", HEADER);
    assert!(!local.can_identify_sockets(&blank));
}

#[test]
fn the_capture_device_bears_the_name_of_the_interface() {
    let local = interface(&[]);
    assert_eq!(local.capture_device(&links(&["eth0", "lo", "lo"])), Some(1));
    assert_eq!(local.capture_device(&links(&["eth0", "lo0"])), None);
    assert_eq!(local.capture_device(&[]), None);
}

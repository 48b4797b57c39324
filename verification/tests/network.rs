use scaphandre::address::{IpAddr, IpNetwork, Ipv4Addr, Ipv6Addr};
use scaphandre::frame::{Packet, PacketType};
use scaphandre::hex::{parse_address_from_hex, parse_port_from_hex};
use scaphandre::interface::{NetworkData, NetworkInterface};
use scaphandre::ip::{IpPacket, IpVersion, PacketError, Protocol};
use scaphandre::process::ProcessNetworkMetrics;
use scaphandre::socket::{get_direction, Direction, Socket};
use scaphandre::table::find_inodes_for_sockets;
use scaphandre::transport::{identify_app_packet_size, TransportLayerPacket};

const TCP_TABLE: &str = "  sl  local_address rem_address   st tx_queue rx_queue tr tm->when retrnsmt   uid  timeout inode
   0: 0100007F:0277 00000000:0000 0A 00000000:00000000 00:00000000 00000000     0        0 37312 1 0000000000000000 100 0 0 10 0
   1: 00000000:0016 00000000:0000 0A 00000000:00000000 00:00000000 00000000     0        0 37313 1 0000000000000000 100 0 0 10 0
   2: 3500007F:0035 00000000:0000 0A 00000000:00000000 00:00000000 00000000     0        0 28907 1 0000000000000000 100 0 0 10 5
   3: 0100007F:1F90 08080808:01BB 01 00000000:00000000 00:00000000 00000000     0        0 16344 1 0000000000000000 20 4 30 10 -1
";

const UDP_TABLE: &str = "  sl  local_address rem_address   st tx_queue rx_queue tr tm->when retrnsmt   uid  timeout inode ref pointer drops
  317: 00000000:14E9 00000000:0000 07 00000000:00000000 00:00000000 00000000     0        0 28671 2 0000000000000000 0
  521: 3500007F:0035 00000000:0000 07 00000000:00000000 00:00000000 00000000     0        0 17324 2 0000000000000000 0
  642: 00000000:0044 00000000:0000 07 00000000:00000000 00:00000000 00000000     0        0 20750 2 0000000000000000 0
  705: 0100007F:0143 00000000:0000 07 00000000:00000000 00:00000000 00000000     0        0 31834 2 0000000000000000 0
";

fn ethernet_frame() -> Vec<u8> {
    vec![
        51, 51, 255, 96, 226, 40, 112, 252, 143, 147, 10, 214, 134, 221, 69, 0, 0, 61, 92, 138,
        64, 0, 64, 17, 170, 127, 0, 0, 1, 8, 8, 8, 8, 1, 144, 208, 0, 53, 0, 41, 52, 13, 201,
        243, 1, 0, 0, 1, 0, 0, 0, 0, 0, 0, 4, 99, 104, 97, 116, 6, 104, 117, 98, 98, 108, 111,
        3, 111, 114, 103, 0, 0, 1, 0, 1,
    ]
}

fn ethernet_frame_vlan_tagged() -> Vec<u8> {
    vec![
        51, 51, 255, 96, 226, 40, 112, 252, 143, 147, 10, 214, 129, 0, 0, 100, 8, 0, 69, 0, 0,
        61, 92, 138, 64, 0, 64, 17, 170, 127, 0, 0, 1, 8, 8, 8, 8, 1, 144, 208, 0, 53, 0, 41,
        52, 13, 201, 243, 1, 0, 0, 1, 0, 0, 0, 0, 0, 0, 4, 99, 104, 97, 116, 6, 104, 117, 98,
        98, 108, 111, 3, 111, 114, 103, 0, 0, 1, 0, 1,
    ]
}

fn ipv4_packet_bytes(protocol: Protocol) -> Vec<u8> {
    match protocol {
        Protocol::Udp => vec![
            69, 0, 0, 61, 92, 138, 64, 0, 64, 17, 170, 127, 0, 0, 1, 8, 8, 8, 8, 1, 144, 208,
            0, 53, 0, 41, 52, 13, 201, 243, 1, 0, 0, 1, 0, 0, 0, 0, 0, 0, 4, 99, 104, 97, 116,
            6, 104, 117, 98, 98, 108, 111, 3, 111, 114, 103, 0, 0, 1, 0, 1,
        ],
        Protocol::Tcp => vec![
            69, 0, 1, 72, 233, 36, 64, 0, 64, 6, 67, 142, 127, 0, 0, 1, 8, 8, 8, 8, 208, 234,
            1, 187, 247, 89, 28, 109, 222, 186, 190, 253, 128, 24, 95, 247, 14, 56, 0, 0, 1, 1,
            8, 10, 211, 48, 238, 16, 146, 224, 159, 152, 23, 3, 3, 1, 15, 36, 159, 112, 182, 7,
            26, 40, 78, 203, 40, 151, 146, 172, 45, 76, 156, 222, 103, 188, 89, 211, 164, 138,
            175, 127, 39, 183, 159, 3, 239, 194, 49, 100, 17, 178, 149, 0, 116, 121, 15, 15,
            97, 213, 232, 88, 73, 50, 243, 176, 251, 229, 143, 227, 108, 207, 30, 30, 160, 237,
            133, 132, 80, 177, 238, 32, 19, 16, 204, 111, 159, 130, 171, 81, 98, 216, 128, 206,
            155, 146, 206, 157, 112, 216, 70, 170, 66, 246, 171, 12, 234, 161, 177, 53, 78,
            180, 237, 128, 128, 210, 177, 76, 248, 183, 37, 218, 30, 188, 99, 190, 113, 13, 94,
            29, 109, 206, 38, 7, 119, 107, 62, 125, 60, 145, 96, 64, 144, 101, 104, 132, 67,
            170, 243, 236, 37, 115, 40, 24, 170, 103, 24, 113, 24, 228, 211, 39, 155, 211, 63,
            173, 179, 112, 31, 143, 168, 166, 122, 117, 12, 95, 7, 4, 33, 25, 192, 143, 249, 1,
            18, 230, 163, 115, 224, 33, 169, 39, 52, 70, 212, 46, 212, 5, 30, 147, 102, 164,
            154, 107, 170, 9, 93, 105, 219, 10, 199, 180, 59, 181, 76, 249, 228, 111, 253, 253,
            246, 246, 37, 49, 188, 30, 69, 99, 3, 178, 0, 241, 6, 157, 173, 19, 140, 49, 47,
            209, 94, 142, 220, 36, 87, 170, 78, 85, 128, 65, 123, 126, 151, 67, 224, 212, 4,
            158, 39, 40, 15, 69, 103, 39, 236, 187, 8, 227, 36, 118, 118, 36, 31, 12, 52, 71,
            250, 104, 6, 243, 193, 22, 59, 195, 222, 75, 218, 6,
        ],
        Protocol::Unknown => vec![
            69, 0, 0, 61, 92, 138, 64, 0, 64, 1, 170, 127, 0, 0, 1, 8, 8, 8, 8, 1, 144, 208, 0,
            53, 0, 41, 52, 13, 201, 243, 1, 0, 0, 1, 0, 0, 0, 0, 0, 0, 4, 99, 104, 97, 116, 6,
            104, 117, 98, 98, 108, 111, 3, 111, 114, 103, 0, 0, 1, 0, 1,
        ],
    }
}

fn ipv4_with_options() -> Vec<u8> {
    vec![
        70, 0, 0, 61, 92, 138, 64, 0, 64, 17, 170, 127, 0, 0, 1, 8, 8, 8, 8, 1, 144, 208, 0,
        53, 0, 41, 52, 13, 201, 243, 1, 0, 0, 1, 0, 0, 0, 0, 0, 0, 4, 99, 104, 97, 116, 6, 104,
        117, 98, 98, 108, 111, 3, 111, 114, 103, 0, 0, 1, 0, 1,
    ]
}

fn ipv6_packet_bytes(protocol: Protocol) -> Result<Vec<u8>, String> {
    let packet = match protocol {
        Protocol::Udp => Ok(vec![
            96, 0, 0, 61, 92, 138, 17, 0, 0, 0, 0, 0, 0, 0, 0, 0, 0, 0, 0, 0, 0, 0, 0, 1, 7,
            209, 18, 252, 18, 252, 0, 0, 0, 0, 0, 0, 0, 0, 34, 184, 184, 99, 104, 97, 116, 6,
            104, 117, 98, 98, 108, 111, 3, 111, 114, 103, 0, 0, 1, 0, 1,
        ]),
        Protocol::Tcp => Ok(vec![
            96, 0, 0, 61, 92, 138, 6, 0, 64, 6, 170, 83, 10, 128, 31, 18, 10, 64, 0, 1, 144,
            208, 0, 53, 0, 41, 52, 13, 201, 243, 1, 0, 0, 1, 0, 0, 0, 0, 0, 0, 4, 99, 104, 97,
            116, 6, 104, 117, 98, 98, 108, 111, 3, 111, 114, 103, 0, 0, 1, 0, 1,
        ]),
        Protocol::Unknown => Err(String::from("Not an acknowledgable protocol")),
    };

    packet
}

fn ipv4_packet_tcp() -> IpPacket {
    IpPacket {
        version: IpVersion::Ipv4,
        protocol: Protocol::Tcp,
        source_ip: IpAddr::V4(Ipv4Addr::new(127, 0, 0, 1)),
        destination_ip: IpAddr::V4(Ipv4Addr::new(8, 8, 8, 8)),
        data: ipv4_packet_bytes(Protocol::Tcp),
    }
}

fn ipv4_packet_udp() -> IpPacket {
    IpPacket {
        version: IpVersion::Ipv4,
        protocol: Protocol::Udp,
        source_ip: IpAddr::V4(Ipv4Addr::new(127, 0, 0, 1)),
        destination_ip: IpAddr::V4(Ipv4Addr::new(8, 8, 8, 8)),
        data: ipv4_packet_bytes(Protocol::Udp),
    }
}

fn ipv4_packet_tcp_incoming() -> IpPacket {
    let data = vec![
        69, 0, 1, 72, 233, 36, 64, 0, 64, 6, 67, 142, 8, 8, 8, 8, 127, 0, 0, 1, 208, 234, 1,
        187, 247, 89, 28, 109, 222, 186, 190, 253, 128, 24, 95, 247, 14, 56, 0, 0, 1, 1, 8, 10,
        211, 48, 238, 16, 146, 224, 159, 152, 23, 3, 3, 1, 15, 36, 159, 112, 182, 7, 26, 40,
        78, 203, 40, 151, 146, 172, 45, 76, 156, 222, 103, 188, 89, 211, 164, 138, 175, 127,
        39, 183, 159, 3, 239, 194, 49, 100, 17, 178, 149, 0, 116, 121, 15, 15, 97, 213, 232,
        88, 73, 50, 243, 176, 251, 229, 143, 227, 108, 207, 30, 30, 160, 237, 133, 132, 80,
        177, 238, 32, 19, 16, 204, 111, 159, 130, 171, 81, 98, 216, 128, 206, 155, 146, 206,
        157, 112, 216, 70, 170, 66, 246, 171, 12, 234, 161, 177, 53, 78, 180, 237, 128, 128,
        210, 177, 76, 248, 183, 37, 218, 30, 188, 99, 190, 113, 13, 94, 29, 109, 206, 38, 7,
        119, 107, 62, 125, 60, 145, 96, 64, 144, 101, 104, 132, 67, 170, 243, 236, 37, 115, 40,
        24, 170, 103, 24, 113, 24, 228, 211, 39, 155, 211, 63, 173, 179, 112, 31, 143, 168,
        166, 122, 117, 12, 95, 7, 4, 33, 25, 192, 143, 249, 1, 18, 230, 163, 115, 224, 33, 169,
        39, 52, 70, 212, 46, 212, 5, 30, 147, 102, 164, 154, 107, 170, 9, 93, 105, 219, 10,
        199, 180, 59, 181, 76, 249, 228, 111, 253, 253, 246, 246, 37, 49, 188, 30, 69, 99, 3,
        178, 0, 241, 6, 157, 173, 19, 140, 49, 47, 209, 94, 142, 220, 36, 87, 170, 78, 85, 128,
        65, 123, 126, 151, 67, 224, 212, 4, 158, 39, 40, 15, 69, 103, 39, 236, 187, 8, 227, 36,
        118, 118, 36, 31, 12, 52, 71, 250, 104, 6, 243, 193, 22, 59, 195, 222, 75, 218, 6,
    ];
    IpPacket {
        version: IpVersion::Ipv4,
        protocol: Protocol::Tcp,
        destination_ip: IpAddr::V4(Ipv4Addr::new(127, 0, 0, 1)),
        source_ip: IpAddr::V4(Ipv4Addr::new(8, 8, 8, 8)),
        data,
    }
}

fn outgoing_socket() -> Socket {
    Socket {
        inode: 123,
        process_name: Some(String::from("firefox")),
        pid: Some(123),
        protocol: Some(Protocol::Tcp),
        source_ip: Some(IpAddr::V4(Ipv4Addr::new(127, 0, 0, 1))),
        destination_ip: Some(IpAddr::V4(Ipv4Addr::new(8, 8, 8, 8))),
        source_port: Some(123),
        destination_port: Some(456),
        direction: Some(Direction::Outgoing),
        packets: vec![],
        app_packets_size: None,
    }
}

fn local_socket() -> Socket {
    Socket {
        inode: 123,
        process_name: Some(String::from("firefox")),
        pid: Some(123),
        protocol: Some(Protocol::Tcp),
        source_ip: Some(IpAddr::V4(Ipv4Addr::new(127, 0, 0, 1))),
        destination_ip: Some(IpAddr::V4(Ipv4Addr::new(127, 0, 0, 1))),
        source_port: Some(123),
        destination_port: Some(456),
        direction: None,
        packets: vec![],
        app_packets_size: None,
    }
}

fn process() -> ProcessNetworkMetrics {
    ProcessNetworkMetrics {
        name: String::from("firefox"),
        pid: 123,
        sockets_inodes: Some(vec![37312, 37313]),
        total_received_bytes: 0,
        total_transmitted_bytes: 0,
    }
}

fn segments_from_text(text: &str) -> Vec<u16> {
    if text.is_empty() {
        return vec![];
    }
    text.split(':')
        .map(|segment| u16::from_str_radix(segment, 16).unwrap())
        .collect()
}

fn address_from_text(text: &str) -> IpAddr {
    if !text.contains(':') {
        let octets: Vec<u8> = text.split('.').map(|octet| octet.parse().unwrap()).collect();
        return IpAddr::V4(Ipv4Addr::new(octets[0], octets[1], octets[2], octets[3]));
    }
    let halves: Vec<&str> = text.split("::").collect();
    let mut segments = segments_from_text(halves[0]);
    if halves.len() > 1 {
        let tail = segments_from_text(halves[1]);
        segments.resize(8 - tail.len(), 0);
        segments.extend(tail);
    }
    IpAddr::V6(Ipv6Addr::new(
        segments[0], segments[1], segments[2], segments[3], segments[4], segments[5], segments[6],
        segments[7],
    ))
}

#[test]
fn it_should_create_a_new_network_interface_from_sysinfo() {
    let network_interfaces = sysinfo::Networks::new_with_refreshed_list();

    network_interfaces.iter().for_each(|interface| {
        let data = NetworkData {
            total_received: interface.1.total_received(),
            total_transmitted: interface.1.total_transmitted(),
            ip_networks: interface
                .1
                .ip_networks()
                .iter()
                .map(|network| IpNetwork {
                    addr: address_from_text(&network.addr.to_string()),
                    prefix: network.prefix,
                })
                .collect(),
        };
        let scaph_net_interface = NetworkInterface::new((interface.0, &data));

        assert_eq!(&scaph_net_interface.name, interface.0);
        assert_eq!(
            scaph_net_interface.total_received_bytes,
            interface.1.total_received()
        );
        assert_eq!(
            scaph_net_interface.total_transmitted_bytes,
            interface.1.total_transmitted()
        );
        assert_eq!(scaph_net_interface.ip_networks, data.ip_networks);
        assert_eq!(scaph_net_interface.sockets.len(), 0);
    });
}

#[test]
fn it_should_identify_an_ipv4_address_from_hexadecimal_notation() {
    let hex_string = "0100007F";

    let parsed_address = parse_address_from_hex(hex_string).unwrap();

    let expected_address = Ipv4Addr::new(127, 0, 0, 1);
    assert_eq!(parsed_address, IpAddr::V4(expected_address));
}

#[test]
fn it_should_identify_an_ipv6_address_from_hexadecimal_notation() {
    let hex_string = "00000000000000000000000001000000";

    let parsed_address = parse_address_from_hex(hex_string).unwrap();

    let expected_address = Ipv6Addr::new(0, 0, 0, 0, 0, 0, 256, 0);
    assert_eq!(parsed_address, IpAddr::V6(expected_address));
}

#[test]
fn it_should_identify_a_port_from_hexadecimal_notation() {
    let hex_string = "0277";

    let parsed_port = parse_port_from_hex(hex_string).unwrap();

    let expected_port = 631;

    assert_eq!(parsed_port, expected_port);
}

#[test]
fn it_should_identify_the_sockets_linked_to_a_network_interface() {
    let ip_network = IpNetwork {
        addr: IpAddr::V4(Ipv4Addr::new(127, 0, 0, 1)),
        prefix: 0,
    };
    let ip_networks: Vec<IpNetwork> = vec![ip_network];
    let mut network_interface = NetworkInterface {
        name: String::from("enp1s0"),
        total_transmitted_bytes: 0,
        total_received_bytes: 0,
        ip_networks,
        sockets: vec![],
    };

    network_interface.identify_sockets(TCP_TABLE);

    let expected_destination_ip = IpAddr::V4(Ipv4Addr::new(0, 0, 0, 0));

    let network_sockets = network_interface.sockets;

    assert_eq!(network_sockets[0].source_ip, Some(ip_network.addr));
    assert_eq!(
        network_sockets[0].destination_ip,
        Some(expected_destination_ip)
    );
}

#[test]
fn it_should_identify_the_inodes_for_listening_tcp_sockets() {
    let expected_inodes = vec![37312, 37313, 28907, 16344];

    let identified_inodes = find_inodes_for_sockets(TCP_TABLE);

    assert_eq!(expected_inodes, identified_inodes);
}

#[test]
fn it_should_identify_the_inodes_for_listening_udp_sockets() {
    let expected_inodes = vec![28671, 17324, 20750, 31834];

    let identified_inodes = find_inodes_for_sockets(UDP_TABLE);

    assert_eq!(expected_inodes, identified_inodes);
}

#[test]
fn it_should_identify_a_socket_for_a_given_process() {
    let first_process = ProcessNetworkMetrics {
        name: String::from("firefox"),
        pid: 123,
        sockets_inodes: Some(vec![37312, 37313]),
        total_received_bytes: 0,
        total_transmitted_bytes: 0,
    };

    let second_process = ProcessNetworkMetrics {
        name: String::from("signal_desktop"),
        pid: 456,
        sockets_inodes: Some(vec![28907, 16344]),
        total_received_bytes: 0,
        total_transmitted_bytes: 0,
    };

    let mut socket = Socket::new(
        37312,
        IpAddr::V4(Ipv4Addr::new(127, 0, 0, 1)),
        IpAddr::V4(Ipv4Addr::new(8, 8, 8, 8)),
        631,
        0,
    );

    socket.identify_process(vec![&first_process, &second_process]);

    assert_eq!(socket.process_name.unwrap(), first_process.name);
    assert_eq!(socket.pid.unwrap(), first_process.pid);
}

#[test]
fn it_should_identify_an_ipv4_packet() {
    let packet = ipv4_packet_bytes(Protocol::Udp);

    let parsed_packet = IpPacket::new(&packet).unwrap();

    assert_eq!(parsed_packet.version, IpVersion::Ipv4);
}

#[test]
fn it_should_identify_an_ipv6_packet() {
    let packet = ipv6_packet_bytes(Protocol::Udp).unwrap();

    let parsed_packet = IpPacket::new(&packet).unwrap();

    assert_eq!(parsed_packet.version, IpVersion::Ipv6);
}

#[test]
fn it_should_identify_the_udp_protocol_for_an_ip_packet() {
    let packet = ipv6_packet_bytes(Protocol::Udp).unwrap();

    let parsed_packet = IpPacket::new(&packet).unwrap();

    assert_eq!(parsed_packet.protocol, Protocol::Udp);
}

#[test]
fn it_should_identify_the_tcp_protocol_for_an_ip_packet() {
    let packet = ipv6_packet_bytes(Protocol::Tcp).unwrap();

    let parsed_packet = IpPacket::new(&packet).unwrap();

    assert_eq!(parsed_packet.protocol, Protocol::Tcp);
}

#[test]
fn it_should_identify_the_source_and_destination_addresses_for_an_ipv4_packet() {
    let packet = ipv4_packet_bytes(Protocol::Tcp);

    let parsed_packet = IpPacket::new(&packet).unwrap();

    assert_eq!(parsed_packet.source_ip, IpAddr::V4(Ipv4Addr::new(127, 0, 0, 1)));
    assert_eq!(parsed_packet.destination_ip, IpAddr::V4(Ipv4Addr::new(8, 8, 8, 8)));
}

#[test]
fn it_should_identify_the_source_and_destination_addresses_for_an_ipv6_packet() {
    let packet = ipv6_packet_bytes(Protocol::Udp).unwrap();

    let parsed_packet = IpPacket::new(&packet).unwrap();

    assert_eq!(
        parsed_packet.source_ip,
        IpAddr::V6(Ipv6Addr::new(0, 0, 0, 0, 0, 0, 0, 1))
    );
    assert_eq!(
        parsed_packet.destination_ip,
        IpAddr::V6(Ipv6Addr::new(2001, 4860, 4860, 0, 0, 0, 0, 8888))
    );
}

#[test]
fn it_should_not_generate_an_ip_packet_if_the_options_field_is_present() {
    let packet = ipv4_with_options();

    let maybe_ip_packet = IpPacket::new(&packet);

    assert!(maybe_ip_packet.is_err());
    assert_eq!(maybe_ip_packet.unwrap_err(), PacketError::OptionsFieldError)
}

#[test]
fn it_should_generate_a_tcp_packet_when_the_correct_protocol_has_been_identified() {
    let ip_packet = ipv4_packet_tcp();
    let tcp_packet = TransportLayerPacket::new(&ip_packet).unwrap();

    assert_eq!(tcp_packet.protocol, Protocol::Tcp);
}

#[test]
fn it_should_parse_a_tcp_packet_to_get_the_relevant_information() {
    let ip_packet = ipv4_packet_tcp();

    let mut tcp_packet = TransportLayerPacket::new(&ip_packet).unwrap();

    tcp_packet.parse();

    let source_addr = tcp_packet.source_address.unwrap();
    let dest_addr = tcp_packet.destination_address.unwrap();

    assert_eq!(source_addr.ip(), IpAddr::V4(Ipv4Addr::new(127, 0, 0, 1)));
    assert_eq!(source_addr.port(), 53482);
    assert_eq!(dest_addr.ip(), IpAddr::V4(Ipv4Addr::new(8, 8, 8, 8)));
    assert_eq!(dest_addr.port(), 443);
    assert_eq!(tcp_packet.size, 308);
    assert_eq!(tcp_packet.data.len(), 308);
}

#[test]
fn it_should_identify_the_application_packet_size_from_a_tcp_packet() {
    let ip_packet = ipv4_packet_tcp();
    let tcp_packet = TransportLayerPacket::new(&ip_packet).unwrap();

    let expected_size = ((tcp_packet.data.len() * 8) - 256) as u32;
    let identified_size = identify_app_packet_size(&tcp_packet.data, Protocol::Tcp);

    assert_eq!(identified_size, expected_size);
}

#[test]
fn it_should_generate_an_udp_packet_when_the_correct_protocol_has_been_identified() {
    let ip_packet = ipv4_packet_udp();
    let udp_packet = TransportLayerPacket::new(&ip_packet).unwrap();

    assert_eq!(udp_packet.protocol, Protocol::Udp);
}

#[test]
fn it_should_not_generate_a_transport_layer_packet_if_an_unmanaged_protocol_has_been_identified()
 {
    let data = ipv4_packet_bytes(Protocol::Unknown);
    let ip_packet = IpPacket::new(&data).unwrap();

    let maybe_transport_packet = TransportLayerPacket::new(&ip_packet);

    assert!(maybe_transport_packet.is_err());
    assert_eq!(
        maybe_transport_packet.unwrap_err(),
        PacketError::FilteredPacket
    );
}

#[test]
fn it_should_parse_a_udp_packet_to_get_the_relevant_information() {
    let ip_packet = ipv4_packet_udp();

    let mut udp_packet = TransportLayerPacket::new(&ip_packet).unwrap();

    udp_packet.parse();

    let source_addr = udp_packet.source_address.unwrap();
    let dest_addr = udp_packet.destination_address.unwrap();

    let expected_size = ip_packet.data[20..].len();

    assert_eq!(source_addr.ip(), IpAddr::V4(Ipv4Addr::new(127, 0, 0, 1)));
    assert_eq!(source_addr.port(), 37072);
    assert_eq!(dest_addr.ip(), IpAddr::V4(Ipv4Addr::new(8, 8, 8, 8)));
    assert_eq!(dest_addr.port(), 53);
    assert_eq!(udp_packet.size, expected_size as u64);
    assert_eq!(udp_packet.data.len(), expected_size);
}

#[test]
fn it_should_identify_the_application_packet_size_from_a_udp_packet() {
    let ip_packet = ipv4_packet_udp();
    let udp_packet = TransportLayerPacket::new(&ip_packet).unwrap();

    let expected_size = ((udp_packet.data.len() * 8) - 16) as u32;
    let identified_size = identify_app_packet_size(&udp_packet.data, Protocol::Udp);

    assert_eq!(identified_size, expected_size);
}

#[test]
fn it_should_identify_if_a_packet_is_outgoing() {
    let ip_packet = ipv4_packet_udp();
    let udp_packet = TransportLayerPacket::new(&ip_packet).unwrap();

    let local_ips = vec![IpAddr::V4(Ipv4Addr::new(127, 0, 0, 1))];

    let is_outgoing = get_direction(
        &udp_packet.source_ip,
        &udp_packet.destination_ip,
        &local_ips,
    );

    assert_eq!(is_outgoing, Direction::Outgoing);
}

#[test]
fn it_should_identify_if_a_packet_is_incoming() {
    let data = vec![
        69, 0, 0, 61, 92, 138, 64, 0, 64, 17, 170, 8, 8, 8, 8, 127, 0, 0, 1, 1, 144, 208, 0,
        53, 0, 41, 52, 13, 201, 243, 1, 0, 0, 1, 0, 0, 0, 0, 0, 0, 4, 99, 104, 97, 116, 6, 104,
        117, 98, 98, 108, 111, 3, 111, 114, 103, 0, 0, 1, 0, 1,
    ];
    let ip_packet = IpPacket {
        version: IpVersion::Ipv4,
        protocol: Protocol::Tcp,
        source_ip: IpAddr::V4(Ipv4Addr::new(8, 8, 8, 8)),
        destination_ip: IpAddr::V4(Ipv4Addr::new(127, 0, 0, 1)),
        data,
    };
    let incoming_udp_packet = TransportLayerPacket::new(&ip_packet).unwrap();

    let local_ips = vec![IpAddr::V4(Ipv4Addr::new(127, 0, 0, 1))];

    let is_incoming = get_direction(
        &incoming_udp_packet.source_ip,
        &incoming_udp_packet.destination_ip,
        &local_ips,
    );

    assert_eq!(is_incoming, Direction::Incoming);
}

#[test]
fn it_should_assign_a_direction_to_a_socket() {
    let mut socket = Socket::new(
        123,
        IpAddr::V4(Ipv4Addr::new(127, 0, 0, 1)),
        IpAddr::V4(Ipv4Addr::new(8, 8, 8, 8)),
        123,
        456,
    );
    let local_ips = vec![IpAddr::V4(Ipv4Addr::new(127, 0, 0, 1))];
    socket.set_direction(&local_ips);

    assert_eq!(socket.direction.unwrap(), Direction::Outgoing);
}

#[test]
fn it_should_identify_a_local_socket() {
    let mut socket = local_socket();
    let local_ips = vec![IpAddr::V4(Ipv4Addr::new(127, 0, 0, 1))];
    socket.set_direction(&local_ips);

    assert_eq!(socket.direction.unwrap(), Direction::Local);
}

#[test]
fn it_should_estimate_the_packets_total_size_for_a_socket() {
    let mut socket = outgoing_socket();
    let ip_packet = ipv4_packet_tcp();
    let tcp_packet = TransportLayerPacket::new(&ip_packet).unwrap();
    let tcp_packets = vec![tcp_packet.clone(), tcp_packet.clone()];

    socket.packets = tcp_packets;
    socket.evaluate_packets_size();

    let expected_size = (((tcp_packet.data.len() * 8) - 256) * 2) as u64;

    assert_eq!(socket.app_packets_size.unwrap(), expected_size);
}

#[test]
fn it_should_update_a_process_network_metrics_with_its_associated_sockets_traffic() {
    let mut process = process();

    let process_inodes = process.sockets_inodes.clone().unwrap();

    let first_socket = Socket {
        inode: process_inodes[0],
        process_name: Some(String::from("firefox")),
        pid: Some(process.pid),
        protocol: Some(Protocol::Tcp),
        source_ip: Some(IpAddr::V4(Ipv4Addr::new(127, 0, 0, 1))),
        destination_ip: Some(IpAddr::V4(Ipv4Addr::new(8, 8, 8, 8))),
        source_port: Some(123),
        destination_port: Some(456),
        direction: Some(Direction::Outgoing),
        packets: vec![],
        app_packets_size: Some(1024),
    };

    let second_socket = Socket {
        inode: process_inodes[1],
        process_name: Some(String::from("firefox")),
        pid: Some(process.pid),
        protocol: Some(Protocol::Tcp),
        source_ip: Some(IpAddr::V4(Ipv4Addr::new(8, 8, 8, 8))),
        destination_ip: Some(IpAddr::V4(Ipv4Addr::new(127, 0, 0, 1))),
        source_port: Some(123),
        destination_port: Some(456),
        direction: Some(Direction::Incoming),
        packets: vec![],
        app_packets_size: Some(2056),
    };

    let sockets = vec![first_socket, second_socket];

    process.update_traffic(&sockets);

    assert_eq!(process.total_transmitted_bytes, 1024);
    assert_eq!(process.total_received_bytes, 2056);
}

#[test]
fn it_should_identify_accordingly_a_captured_ethernet_frame_depending_on_the_data_link_type() {
    let ethernet_dlt = 1;
    let ethernet_frame = ethernet_frame();

    let packet = Packet::new(&ethernet_dlt, &ethernet_frame);
    let identified_type = packet.identify();

    let expected_type = PacketType::Ethernet;

    assert_eq!(identified_type, expected_type);
}

#[test]
fn it_should_generate_an_ip_packet_after_identifying_an_ethernet_frame_and_getting_its_payload()
{
    let ethernet_frame = ethernet_frame();
    let dlt = 1;
    let packet = Packet::new(&dlt, &ethernet_frame);

    let payload = packet.payload();

    let maybe_ip_packet = IpPacket::new(&payload);
    assert!(maybe_ip_packet.is_ok());
    assert_eq!(maybe_ip_packet.unwrap().protocol, Protocol::Udp);
}

#[test]
fn it_should_generate_an_ip_packet_after_identifying_a_raw_ip_packet_and_getting_its_payload() {
    let raw_ip_packet = ipv4_packet_bytes(Protocol::Udp);
    let raw_ip_dlts = [12, 101, 228, 229];
    raw_ip_dlts.iter().for_each(|dlt| {
        let packet = Packet::new(dlt, &raw_ip_packet);

        let payload = packet.payload();

        let maybe_ip_packet = IpPacket::new(&payload);
        assert!(maybe_ip_packet.is_ok());
        assert_eq!(maybe_ip_packet.unwrap().protocol, Protocol::Udp);
    });
}

#[test]
fn it_should_generate_an_ip_packet_after_distinguishing_an_ethernet_frame_and_a_vlan_tagged_ethernet_frame()
 {
    let ethernet_frame = ethernet_frame_vlan_tagged();
    let dlt = 1;
    let packet = Packet::new(&dlt, &ethernet_frame);

    let payload = packet.payload();

    let maybe_ip_packet = IpPacket::new(&payload);
    assert!(maybe_ip_packet.is_ok());
    assert_eq!(maybe_ip_packet.unwrap().protocol, Protocol::Udp);
}

#[test]
fn it_should_filter_packets_received_by_a_socket_to_only_keep_those_related_to_this_socket() {
    let mut socket = outgoing_socket();

    let packets: Vec<IpPacket> = vec![
        ipv4_packet_tcp(),
        ipv4_packet_tcp(),
        ipv4_packet_tcp_incoming(),
    ];

    packets.iter().for_each(|packet| {
        socket.filter_packet(packet);
    });

    assert_eq!(socket.packets.len(), 2);
}
#[test]
fn it_should_identify_the_sockets_and_their_inodes_among_file_descriptors_for_a_process() {
    let links = vec![
        String::from("/dev/null"),
        String::from("socket:[67890]"),
        String::from("pipe:[4242]"),
        String::from("socket:[12345]"),
        String::from("anon_inode:[eventpoll]"),
    ];

    let process = ProcessNetworkMetrics::new("firefox", 123, &links);

    let expected_inodes = vec![12345, 67890];

    assert_eq!(process.sockets_inodes.unwrap(), expected_inodes);
}

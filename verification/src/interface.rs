//! Network interfaces and the sockets through which they are used.
use vstd::prelude::*;

use crate::address::{addresses, IpAddr, IpNetwork};
use crate::number::signed_decimal;
use crate::socket::{direction_of, new_socket, socket_views, Direction, Socket, SocketView};
use crate::table::{
    address_column, is_readable_table, law_found_sockets_are_local, law_line_reads_back,
    law_one_more_line, read_local_entries, table_entries, SocketEntry,
};
use crate::text::{ended_lines, is_blank, is_white_space, join};

verus! {

/// What the system counts of a network interface, and the addresses that the interface holds.
#[derive(Clone, Debug)]
pub struct NetworkData {
    pub total_received: u64,
    pub total_transmitted: u64,
    pub ip_networks: Vec<IpNetwork>,
}

/// A network interface (wired, wireless...). It holds the sockets through which connections are
/// established, which are meant to be updated continually.
#[derive(Clone, Debug)]
pub struct NetworkInterface {
    pub name: String,
    pub total_received_bytes: u64,
    pub total_transmitted_bytes: u64,
    pub ip_networks: Vec<IpNetwork>,
    pub sockets: Vec<Socket>,
}

/// The mathematical content of a network interface.
#[verifier::ext_equal]
pub struct NetworkInterfaceView {
    pub name: Seq<char>,
    pub total_received_bytes: u64,
    pub total_transmitted_bytes: u64,
    pub ip_networks: Seq<IpNetwork>,
    pub sockets: Seq<SocketView>,
}

impl View for NetworkInterface {
    type V = NetworkInterfaceView;

    open spec fn view(&self) -> NetworkInterfaceView {
        NetworkInterfaceView {
            name: self.name@,
            total_received_bytes: self.total_received_bytes,
            total_transmitted_bytes: self.total_transmitted_bytes,
            ip_networks: self.ip_networks@,
            sockets: socket_views(self.sockets@),
        }
    }
}

/// The socket that an entry of a table stands for.
pub open spec fn entry_socket(entry: SocketEntry) -> SocketView {
    new_socket(
        entry.inode,
        entry.source_ip,
        entry.destination_ip,
        entry.source_port,
        entry.destination_port,
    )
}

/// The sockets in a table whose local address is one of `local_ips`.
pub open spec fn table_sockets(table: Seq<char>, local_ips: Seq<IpAddr>) -> Seq<SocketView> {
    table_entries(table, local_ips).map_values(|entry: SocketEntry| entry_socket(entry))
}

/// An interface after its sockets have been looked up in a table.
pub open spec fn with_sockets(
    interface: NetworkInterfaceView,
    table: Seq<char>,
) -> NetworkInterfaceView {
    NetworkInterfaceView {
        sockets: interface.sockets + table_sockets(table, addresses(interface.ip_networks)),
        ..interface
    }
}

/// Whether `index` is that of the first of `names` that is `name`.
pub open spec fn is_first_named(index: int, names: Seq<String>, name: Seq<char>) -> bool {
    &&& 0 <= index < names.len()
    &&& names[index]@ == name
    &&& forall|i: int| 0 <= i < index ==> (#[trigger] names[i])@ != name
}

impl NetworkInterface {
    /// The interface of the given name, with what the system counts of it and no sockets yet.
    pub fn new(interface: (&String, &NetworkData)) -> (created: Self)
        ensures
            created@ == (NetworkInterfaceView {
                name: interface.0@,
                total_received_bytes: interface.1.total_received,
                total_transmitted_bytes: interface.1.total_transmitted,
                ip_networks: interface.1.ip_networks@,
                sockets: Seq::empty(),
            }),
    {
        NetworkInterface {
            name: interface.0.clone(),
            total_received_bytes: interface.1.total_received,
            total_transmitted_bytes: interface.1.total_transmitted,
            ip_networks: vstd::slice::slice_to_vec(interface.1.ip_networks.as_slice()),
            sockets: Vec::new(),
        }
    }

    /// The addresses that the interface holds.
    pub fn local_ips(&self) -> (local_ips: Vec<IpAddr>)
        ensures
            local_ips@ == addresses(self.ip_networks@),
            local_ips@.len() == self.ip_networks@.len(),
            forall|i: int|
                0 <= i < local_ips@.len() ==> #[trigger] local_ips@[i] == self.ip_networks@[i].addr,
    {
        let mut local_ips: Vec<IpAddr> = Vec::new();
        let mut i: usize = 0;
        while i < self.ip_networks.len()
            invariant
                i <= self.ip_networks@.len(),
                local_ips@ == addresses(self.ip_networks@).take(i as int),
            decreases self.ip_networks@.len() - i,
        {
            local_ips.push(self.ip_networks[i].addr);
            assert(addresses(self.ip_networks@).take(i + 1) =~= addresses(self.ip_networks@).take(
                i as int,
            ).push(self.ip_networks@[i as int].addr));
            i += 1;
        }
        assert(addresses(self.ip_networks@).take(i as int) =~= addresses(self.ip_networks@));
        local_ips
    }

    /// Whether a socket table can be read as far as it is needed to find the interface's sockets.
    pub fn can_identify_sockets(&self, table: &str) -> (answer: bool)
        ensures
            answer == is_readable_table(table@, addresses(self.ip_networks@)),
    {
        read_local_entries(table, self.local_ips().as_slice()).is_some()
    }

    /// Adds the sockets of a table whose local address is one that the interface holds.
    pub fn identify_sockets(&mut self, table: &str)
        requires
            is_readable_table(table@, addresses(old(self).ip_networks@)),
        ensures
            final(self)@ == with_sockets(old(self)@, table@),
            ({
                let entries = table_entries(table@, addresses(old(self).ip_networks@));
                let count = old(self).sockets@.len();
                &&& final(self).sockets@.len() == count + entries.len()
                &&& forall|i: int|
                    0 <= i < entries.len() ==> {
                        let socket = final(self)@.sockets[count + i];
                        &&& socket.inode == (#[trigger] entries[i]).inode
                        &&& socket.source_ip == Some(entries[i].source_ip)
                        &&& socket.destination_ip == Some(entries[i].destination_ip)
                        &&& socket.source_port == Some(entries[i].source_port)
                        &&& socket.destination_port == Some(entries[i].destination_port)
                    }
            }),
    {
        let local_ips = self.local_ips();
        let entries = read_local_entries(table, local_ips.as_slice()).unwrap();
        let ghost before = socket_views(self.sockets@);
        let ghost added = entries@.map_values(|entry: SocketEntry| entry_socket(entry));
        assert(before + added.take(0) =~= before);
        let mut i: usize = 0;
        while i < entries.len()
            invariant
                i <= entries@.len(),
                added == entries@.map_values(|entry: SocketEntry| entry_socket(entry)),
                self.name == old(self).name,
                self.total_received_bytes == old(self).total_received_bytes,
                self.total_transmitted_bytes == old(self).total_transmitted_bytes,
                self.ip_networks == old(self).ip_networks,
                socket_views(self.sockets@) == before + added.take(i as int),
            decreases entries@.len() - i,
        {
            let entry = entries[i];
            let socket = Socket::new(
                entry.inode,
                entry.source_ip,
                entry.destination_ip,
                entry.source_port,
                entry.destination_port,
            );
            let ghost kept = socket_views(self.sockets@);
            self.sockets.push(socket);
            assert(socket_views(self.sockets@) =~= kept.push(socket@));
            assert(before + added.take(i + 1) =~= (before + added.take(i as int)).push(
                added[i as int],
            ));
            i += 1;
        }
        assert(added.take(i as int) =~= added);
        assert(self.sockets@.len() == socket_views(self.sockets@).len());
    }

    /// The device from which to capture the packets of the interface: the first that bears its
    /// name, if one does.
    pub fn capture_device(&self, device_names: &[String]) -> (device: Option<usize>)
        ensures
            match device {
                Some(index) => {
                    &&& is_first_named(index as int, device_names@, self.name@)
                    &&& index < device_names@.len()
                    &&& device_names@[index as int]@ == self.name@
                    &&& forall|i: int|
                        0 <= i < index ==> (#[trigger] device_names@[i])@ != self.name@
                },
                None => forall|i: int|
                    0 <= i < device_names@.len() ==> (#[trigger] device_names@[i])@ != self.name@,
            },
    {
        let mut i: usize = 0;
        while i < device_names.len()
            invariant
                i <= device_names@.len(),
                forall|k: int| 0 <= k < i ==> (#[trigger] device_names@[k])@ != self.name@,
            decreases device_names@.len() - i,
        {
            if device_names[i] == self.name {
                return Some(i);
            }
            i += 1;
        }
        None
    }
}

/// The sockets that an interface takes from a table have a local address of the interface as their
/// source. Their traffic, seen from the interface, is never incoming: it is outgoing, or local
/// where it stays among the interface's own addresses.
pub proof fn law_identified_sockets_are_never_incoming(
    interface: NetworkInterfaceView,
    table: Seq<char>,
    index: int,
)
    requires
        is_readable_table(table, addresses(interface.ip_networks)),
        interface.sockets.len() <= index < with_sockets(interface, table).sockets.len(),
    ensures
        ({
            let local_ips = addresses(interface.ip_networks);
            let socket = with_sockets(interface, table).sockets[index];
            &&& socket.source_ip is Some
            &&& local_ips.contains(socket.source_ip->0)
            &&& socket.destination_ip is Some
            &&& direction_of(socket.source_ip->0, socket.destination_ip->0, local_ips)
                != Direction::Incoming
        }),
{
    let local_ips = addresses(interface.ip_networks);
    law_found_sockets_are_local(table, local_ips, index - interface.sockets.len());
}

/// Looking sockets up leaves those that the interface had where they were.
pub proof fn law_identifying_sockets_keeps_the_others(
    interface: NetworkInterfaceView,
    table: Seq<char>,
)
    ensures
        with_sockets(interface, table).sockets.take(interface.sockets.len() as int)
            == interface.sockets,
{
    assert(with_sockets(interface, table).sockets.take(interface.sockets.len() as int)
        =~= interface.sockets);
}

/// The sockets that an interface takes from a table are those of the table's entries with a local
/// source, one for each, in their order and behind those that the interface had. Each has the inode,
/// the addresses and the ports of its entry, and nothing else is known of it. Nothing else about the
/// interface changes.
pub proof fn law_identified_sockets_are_those_of_the_table(
    interface: NetworkInterfaceView,
    table: Seq<char>,
)
    ensures
        ({
            let after = with_sockets(interface, table);
            let local_ips = Seq::new(
                interface.ip_networks.len(),
                |i: int| interface.ip_networks[i].addr,
            );
            let entries = table_entries(table, local_ips);
            &&& after.name == interface.name
            &&& after.total_received_bytes == interface.total_received_bytes
            &&& after.total_transmitted_bytes == interface.total_transmitted_bytes
            &&& after.ip_networks == interface.ip_networks
            &&& after.sockets.len() == interface.sockets.len() + entries.len()
            &&& forall|i: int|
                0 <= i < interface.sockets.len() ==> after.sockets[i] == interface.sockets[i]
            &&& forall|i: int|
                0 <= i < entries.len() ==> {
                    let socket = after.sockets[interface.sockets.len() + i];
                    &&& socket.inode == (#[trigger] entries[i]).inode
                    &&& socket.source_ip == Some(entries[i].source_ip)
                    &&& socket.destination_ip == Some(entries[i].destination_ip)
                    &&& socket.source_port == Some(entries[i].source_port)
                    &&& socket.destination_port == Some(entries[i].destination_port)
                    &&& socket.process_name is None
                    &&& socket.pid is None
                    &&& socket.protocol is None
                    &&& socket.direction is None
                    &&& socket.packets.len() == 0
                    &&& socket.app_packets_size is None
                }
        }),
{
    let local_ips = Seq::new(interface.ip_networks.len(), |i: int| interface.ip_networks[i].addr);
    assert(addresses(interface.ip_networks) =~= local_ips);
}

/// A line with the addresses and ports of a socket and its inode, written below the others of a
/// table, adds one socket with exactly these if the interface holds the local address, and none if
/// it does not.
pub proof fn law_written_line_becomes_a_socket(
    interface: NetworkInterfaceView,
    header: Seq<char>,
    rows: Seq<Seq<char>>,
    before: Seq<char>,
    cells: Seq<Seq<char>>,
    after: Seq<char>,
    inode: i32,
    source_ip: IpAddr,
    destination_ip: IpAddr,
    source_port: u16,
    destination_port: u16,
)
    requires
        is_blank(before),
        is_blank(after),
        cells.len() > 20,
        forall|i: int| 0 <= i < cells.len() ==> !(#[trigger] cells[i]).contains(' '),
        cells[0].len() > 0,
        !is_white_space(cells[0][0]),
        cells.last().len() > 0,
        !is_white_space(cells.last().last()),
        cells[1] == address_column(source_ip, source_port),
        cells[2] == address_column(destination_ip, destination_port),
        cells[20] == signed_decimal(inode as int),
        ({
            let written = seq![header] + rows.push(before + join(cells, ' ') + after);
            forall|i: int|
                0 <= i < written.len() ==> {
                    &&& !(#[trigger] written[i]).contains('\n')
                    &&& written[i].len() > 0 ==> written[i].last() != '\r'
                }
        }),
    ensures
        ({
            let row = before + join(cells, ' ') + after;
            let shorter = ended_lines(seq![header] + rows);
            let longer = ended_lines(seq![header] + rows.push(row));
            let few = with_sockets(interface, shorter).sockets;
            let many = with_sockets(interface, longer).sockets;
            let is_local = exists|i: int|
                0 <= i < interface.ip_networks.len() && (
                #[trigger] interface.ip_networks[i]).addr == source_ip;
            &&& is_readable_table(longer, addresses(interface.ip_networks)) <==> is_readable_table(
                shorter,
                addresses(interface.ip_networks),
            )
            &&& !is_local ==> many == few
            &&& is_local ==> {
                let socket = many[few.len() as int];
                &&& many.len() == few.len() + 1
                &&& forall|i: int| 0 <= i < few.len() ==> many[i] == few[i]
                &&& socket.inode == inode
                &&& socket.source_ip == Some(source_ip)
                &&& socket.destination_ip == Some(destination_ip)
                &&& socket.source_port == Some(source_port as u32)
                &&& socket.destination_port == Some(destination_port as u32)
            }
        }),
{
    let row = before + join(cells, ' ') + after;
    let local_ips = addresses(interface.ip_networks);
    law_line_reads_back(
        before,
        cells,
        after,
        inode,
        source_ip,
        destination_ip,
        source_port,
        destination_port,
    );
    law_one_more_line(header, rows, row, local_ips, source_ip);
    assert(local_ips.contains(source_ip) <==> exists|i: int|
        0 <= i < interface.ip_networks.len() && (#[trigger] interface.ip_networks[i]).addr
            == source_ip) by {
        if local_ips.contains(source_ip) {
            let k = choose|k: int| 0 <= k < local_ips.len() && local_ips[k] == source_ip;
            assert(interface.ip_networks[k].addr == source_ip);
        }
        if exists|i: int|
            0 <= i < interface.ip_networks.len() && (#[trigger] interface.ip_networks[i]).addr
                == source_ip {
            let k = choose|k: int|
                0 <= k < interface.ip_networks.len() && (#[trigger] interface.ip_networks[k]).addr
                    == source_ip;
            assert(local_ips[k] == source_ip);
        }
    }
}

/// The view of an interface shows all of its fields, and each of its sockets.
pub proof fn law_interface_view(interface: NetworkInterface)
    ensures
        interface@.name == interface.name@,
        interface@.total_received_bytes == interface.total_received_bytes,
        interface@.total_transmitted_bytes == interface.total_transmitted_bytes,
        interface@.ip_networks == interface.ip_networks@,
        interface@.sockets.len() == interface.sockets@.len(),
        forall|i: int|
            0 <= i < interface.sockets@.len() ==> interface@.sockets[i] == (
            #[trigger] interface.sockets@[i])@,
{
}

} // verus!

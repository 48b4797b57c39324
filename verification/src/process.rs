//! The network metrics of a process: the sockets that it owns and the traffic through them.
use vstd::prelude::*;

use crate::number::{decimal_i32, law_decimal_reads_back, read_decimal_i32, signed_decimal};
use crate::socket::{socket_views, Direction, Socket, SocketView};
use crate::text::{begins_with, characters, starts_with, texts};

verus! {

/// The network metrics of a process, to be exposed beside what else is measured of it.
pub struct ProcessNetworkMetrics {
    pub name: String,
    pub pid: u32,
    pub sockets_inodes: Option<Vec<i32>>,
    pub total_received_bytes: u64,
    pub total_transmitted_bytes: u64,
}

/// The mathematical content of a process's metrics.
#[verifier::ext_equal]
pub struct ProcessNetworkMetricsView {
    pub name: Seq<char>,
    pub pid: u32,
    pub sockets_inodes: Option<Seq<i32>>,
    pub total_received_bytes: u64,
    pub total_transmitted_bytes: u64,
}

impl View for ProcessNetworkMetrics {
    type V = ProcessNetworkMetricsView;

    open spec fn view(&self) -> ProcessNetworkMetricsView {
        ProcessNetworkMetricsView {
            name: self.name@,
            pid: self.pid,
            sockets_inodes: match self.sockets_inodes {
                Some(inodes) => Some(inodes@),
                None => None,
            },
            total_received_bytes: self.total_received_bytes,
            total_transmitted_bytes: self.total_transmitted_bytes,
        }
    }
}

/// Whether an inode is among those of a process.
pub open spec fn owns(process: ProcessNetworkMetricsView, inode: i32) -> bool {
    process.sockets_inodes matches Some(inodes) && inodes.contains(inode)
}

/// The first of the processes that owns an inode.
pub open spec fn owner(
    processes: Seq<ProcessNetworkMetricsView>,
    inode: i32,
) -> Option<ProcessNetworkMetricsView>
    decreases processes.len(),
{
    if processes.len() == 0 {
        None
    } else if owns(processes[0], inode) {
        Some(processes[0])
    } else {
        owner(processes.drop_first(), inode)
    }
}

/// Whether the target of a descriptor's symbolic link names a socket.
pub open spec fn is_socket_link(link: Seq<char>) -> bool {
    begins_with(link, "socket"@)
}

/// The inode in a link of the form `socket:[12345]`.
pub open spec fn link_inode(link: Seq<char>) -> Option<int> {
    let rest = link.skip("socket:["@.len() as int);
    if begins_with(link, "socket:["@) && rest.len() > 0 && rest.last() == ']' {
        decimal_i32(rest.drop_last())
    } else {
        None
    }
}

/// Whether every link that names a socket gives its inode.
pub open spec fn are_readable_links(links: Seq<Seq<char>>) -> bool {
    forall|i: int|
        0 <= i < links.len() && is_socket_link(#[trigger] links[i]) ==> link_inode(links[i]) is Some
}

/// The inodes of the links that name a socket, in the order of the links.
pub open spec fn link_inodes(links: Seq<Seq<char>>) -> Seq<i32>
    decreases links.len(),
{
    if links.len() == 0 {
        Seq::empty()
    } else {
        let before = link_inodes(links.drop_last());
        if is_socket_link(links.last()) {
            before.push(link_inode(links.last())->0 as i32)
        } else {
            before
        }
    }
}

/// Whether numbers are in ascending order.
pub open spec fn is_ascending(numbers: Seq<i32>) -> bool {
    forall|i: int, j: int| 0 <= i < j < numbers.len() ==> numbers[i] <= numbers[j]
}

/// Whether `inodes` are those of the links that name a socket, in ascending order.
pub open spec fn are_inodes_of(inodes: Seq<i32>, links: Seq<Seq<char>>) -> bool {
    &&& is_ascending(inodes)
    &&& inodes.to_multiset() == link_inodes(links).to_multiset()
}

/// What one socket adds to the traffic of a direction.
pub open spec fn contribution(socket: SocketView, direction: Direction) -> nat {
    if socket.direction == Some(direction) {
        socket.app_packets_size->0 as nat
    } else {
        0
    }
}

/// The traffic through the sockets of one direction.
pub open spec fn traffic(sockets: Seq<SocketView>, direction: Direction) -> nat
    decreases sockets.len(),
{
    if sockets.len() == 0 {
        0
    } else {
        traffic(sockets.drop_last(), direction) + contribution(sockets.last(), direction)
    }
}

/// Whether the traffic of sockets can be counted: each that receives or transmits has been
/// measured.
pub open spec fn is_counted(sockets: Seq<SocketView>) -> bool {
    forall|i: int|
        0 <= i < sockets.len() ==> {
            (#[trigger] sockets[i]).direction == Some(Direction::Incoming) || sockets[i].direction
                == Some(Direction::Outgoing) ==> sockets[i].app_packets_size is Some
        }
}

/// Whether the totals of a process can take in the traffic of sockets.
pub open spec fn can_update(
    process: ProcessNetworkMetricsView,
    sockets: Seq<SocketView>,
) -> bool {
    &&& is_counted(sockets)
    &&& process.total_received_bytes + traffic(sockets, Direction::Incoming) <= u64::MAX
    &&& process.total_transmitted_bytes + traffic(sockets, Direction::Outgoing) <= u64::MAX
}

/// A process after the traffic of sockets has been added to its totals.
pub open spec fn with_traffic(
    process: ProcessNetworkMetricsView,
    sockets: Seq<SocketView>,
) -> ProcessNetworkMetricsView {
    ProcessNetworkMetricsView {
        total_received_bytes: (process.total_received_bytes + traffic(
            sockets,
            Direction::Incoming,
        )) as u64,
        total_transmitted_bytes: (process.total_transmitted_bytes + traffic(
            sockets,
            Direction::Outgoing,
        )) as u64,
        ..process
    }
}

/// The inodes of links are those that one of the links names.
proof fn lemma_link_inodes_contain(links: Seq<Seq<char>>, inode: i32)
    requires
        are_readable_links(links),
    ensures
        link_inodes(links).contains(inode) <==> exists|i: int|
            {
                &&& 0 <= i < links.len()
                &&& is_socket_link(#[trigger] links[i])
                &&& link_inode(links[i]) == Some(inode as int)
            },
    decreases links.len(),
{
    if links.len() > 0 {
        let front = links.drop_last();
        assert forall|i: int| 0 <= i < front.len() implies #[trigger] front[i] == links[i] by {}
        lemma_link_inodes_contain(front, inode);
        let before = link_inodes(front);
        let last = links.last();
        if is_socket_link(last) {
            let added = link_inode(last)->0 as i32;
            lemma_link_inode_is_i32(last);
            assert(links[links.len() - 1] == last);
            assert(before.push(added).contains(inode) <==> before.contains(inode) || added
                == inode) by {
                if before.contains(inode) {
                    let k = choose|k: int| 0 <= k < before.len() && before[k] == inode;
                    assert(before.push(added)[k] == inode);
                }
                assert(before.push(added)[before.len() as int] == added);
            }
        }
        if exists|i: int|
            {
                &&& 0 <= i < front.len()
                &&& is_socket_link(#[trigger] front[i])
                &&& link_inode(front[i]) == Some(inode as int)
            } {
            let i = choose|i: int|
                {
                    &&& 0 <= i < front.len()
                    &&& is_socket_link(#[trigger] front[i])
                    &&& link_inode(front[i]) == Some(inode as int)
                };
            assert(links[i] == front[i]);
        }
        if exists|i: int|
            {
                &&& 0 <= i < links.len()
                &&& is_socket_link(#[trigger] links[i])
                &&& link_inode(links[i]) == Some(inode as int)
            } {
            let i = choose|i: int|
                {
                    &&& 0 <= i < links.len()
                    &&& is_socket_link(#[trigger] links[i])
                    &&& link_inode(links[i]) == Some(inode as int)
                };
            if i < front.len() {
                assert(front[i] == links[i]);
            }
        }
    }
}

/// An inode that can be read is a 32-bit number.
proof fn lemma_link_inode_is_i32(link: Seq<char>)
    requires
        link_inode(link) is Some,
    ensures
        i32::MIN <= link_inode(link)->0 <= i32::MAX,
{
}

/// Listing the same links in another order gives the same inodes in another order.
proof fn lemma_inodes_of_reordered_links(links: Seq<Seq<char>>, other_links: Seq<Seq<char>>)
    requires
        links.to_multiset() == other_links.to_multiset(),
    ensures
        link_inodes(links).to_multiset() == link_inodes(other_links).to_multiset(),
    decreases links.len(),
{
    links.to_multiset_ensures();
    other_links.to_multiset_ensures();
    if links.len() > 0 {
        let last = links.last();
        assert(links.contains(last));
        assert(other_links.to_multiset().count(last) > 0);
        let k = choose|k: int| 0 <= k < other_links.len() && other_links[k] == last;
        let front = links.drop_last();
        let others = other_links.remove(k);
        assert(links =~= front.push(last));
        front.to_multiset_ensures();
        assert(front.to_multiset() =~= links.to_multiset().remove(last));
        assert(others.to_multiset() =~= other_links.to_multiset().remove(last));
        lemma_inodes_of_reordered_links(front, others);
        lemma_taking_a_link_out(other_links, k);
        link_inodes(front).to_multiset_ensures();
    }
}

/// Taking a link out takes its inode out, if it names a socket.
proof fn lemma_taking_a_link_out(links: Seq<Seq<char>>, k: int)
    requires
        0 <= k < links.len(),
    ensures
        link_inodes(links).to_multiset() == (if is_socket_link(links[k]) {
            link_inodes(links.remove(k)).to_multiset().insert(link_inode(links[k])->0 as i32)
        } else {
            link_inodes(links.remove(k)).to_multiset()
        }),
    decreases links.len(),
{
    let front = links.drop_last();
    link_inodes(front).to_multiset_ensures();
    if k == links.len() - 1 {
        assert(links.remove(k) =~= front);
    } else {
        lemma_taking_a_link_out(front, k);
        let rest = links.remove(k);
        assert(rest.drop_last() =~= front.remove(k));
        assert(rest.last() == links.last());
        link_inodes(rest.drop_last()).to_multiset_ensures();
        if is_socket_link(links[k]) && is_socket_link(links.last()) {
            let a = link_inode(links[k])->0 as i32;
            let b = link_inode(links.last())->0 as i32;
            let m = link_inodes(rest.drop_last()).to_multiset();
            assert(m.insert(a).insert(b) =~= m.insert(b).insert(a));
        }
    }
}

/// Fewer sockets have no more traffic.
proof fn lemma_fewer_sockets_have_less_traffic(
    sockets: Seq<SocketView>,
    count: int,
    direction: Direction,
)
    requires
        0 <= count <= sockets.len(),
    ensures
        traffic(sockets.take(count), direction) <= traffic(sockets, direction),
    decreases sockets.len(),
{
    if count == sockets.len() {
        assert(sockets.take(count) =~= sockets);
    } else {
        lemma_fewer_sockets_have_less_traffic(sockets.drop_last(), count, direction);
        assert(sockets.drop_last().take(count) =~= sockets.take(count));
    }
}

/// Adds up the traffic through the sockets of one direction.
fn count_traffic(sockets: &[Socket], direction: Direction) -> (total: u64)
    requires
        direction != Direction::Local,
        is_counted(socket_views(sockets@)),
        traffic(socket_views(sockets@), direction) <= u64::MAX,
    ensures
        total == traffic(socket_views(sockets@), direction),
{
    let ghost views = socket_views(sockets@);
    let mut total: u64 = 0;
    let mut i: usize = 0;
    while i < sockets.len()
        invariant
            direction != Direction::Local,
            i <= sockets@.len(),
            views == socket_views(sockets@),
            is_counted(views),
            traffic(views, direction) <= u64::MAX,
            total == traffic(views.take(i as int), direction),
        decreases sockets@.len() - i,
    {
        assert(views[i as int] == sockets@[i as int]@);
        assert(views.take(i + 1).drop_last() =~= views.take(i as int));
        proof {
            lemma_fewer_sockets_have_less_traffic(views, i + 1, direction);
        }
        if let Some(own) = sockets[i].direction {
            if own == direction {
                total += sockets[i].app_packets_size.unwrap();
            }
        }
        i += 1;
    }
    assert(views.take(i as int) =~= views);
    total
}

/// Reads the inode of a link, if it has the form of a socket's link.
fn read_link_inode(link: &[char]) -> (inode: Option<i32>)
    ensures
        match inode {
            Some(inode) => link_inode(link@) == Some(inode as int),
            None => link_inode(link@) is None,
        },
{
    let prefix = characters("socket:[");
    if !starts_with(link, prefix.as_slice()) {
        return None;
    }
    let rest = vstd::slice::slice_subrange(link, prefix.len(), link.len());
    assert(rest@ =~= link@.skip("socket:["@.len() as int));
    if rest.len() == 0 || rest[rest.len() - 1] != ']' {
        return None;
    }
    let number = vstd::slice::slice_subrange(rest, 0, rest.len() - 1);
    assert(number@ =~= rest@.drop_last());
    read_decimal_i32(number)
}

/// Puts a number in its place among ascending ones.
fn insert_ascending(numbers: &mut Vec<i32>, number: i32)
    requires
        is_ascending(old(numbers)@),
    ensures
        is_ascending(final(numbers)@),
        final(numbers)@.to_multiset() == old(numbers)@.to_multiset().insert(number),
{
    let ghost before = numbers@;
    let mut place: usize = 0;
    while place < numbers.len() && numbers[place] <= number
        invariant
            numbers@ == before,
            place <= numbers@.len(),
            forall|i: int| 0 <= i < place ==> numbers@[i] <= number,
        decreases numbers@.len() - place,
    {
        place += 1;
    }
    numbers.insert(place, number);
    proof {
        let after = numbers@;
        assert(after =~= before.insert(place as int, number));
        assert(after.remove(place as int) =~= before);
        assert(after[place as int] == number);
        after.to_multiset_ensures();
        assert(after.contains(number));
        assert(after.to_multiset() =~= before.to_multiset().insert(number));
    }
}

/// The inodes of the links that name a socket, in ascending order, if all of those can be read.
fn read_link_inodes(links: &[String]) -> (inodes: Option<Vec<i32>>)
    ensures
        match inodes {
            Some(inodes) => are_readable_links(texts(links@)) && are_inodes_of(
                inodes@,
                texts(links@),
            ),
            None => !are_readable_links(texts(links@)),
        },
{
    let ghost all = texts(links@);
    let prefix = characters("socket");
    let mut inodes: Vec<i32> = Vec::new();
    let mut i: usize = 0;
    while i < links.len()
        invariant
            all == texts(links@),
            prefix@ == "socket"@,
            i <= links@.len(),
            are_readable_links(all.take(i as int)),
            are_inodes_of(inodes@, all.take(i as int)),
        decreases links@.len() - i,
    {
        let link = characters(links[i].as_str());
        assert(all[i as int] == link@);
        let ghost grown = all.take(i + 1);
        assert(grown.drop_last() =~= all.take(i as int));
        assert(grown.last() == link@);
        if starts_with(link.as_slice(), prefix.as_slice()) {
            match read_link_inode(link.as_slice()) {
                Some(inode) => {
                    insert_ascending(&mut inodes, inode);
                    proof {
                        link_inodes(grown.drop_last()).to_multiset_ensures();
                    }
                },
                None => {
                    return None;
                },
            }
        }
        assert(forall|k: int| 0 <= k < i ==> grown[k] == all.take(i as int)[k]);
        i += 1;
    }
    assert(all.take(i as int) =~= all);
    Some(inodes)
}

/// Whether every link that names a socket gives its inode.
pub fn can_read_links(links: &[String]) -> (answer: bool)
    ensures
        answer == are_readable_links(texts(links@)),
{
    read_link_inodes(links).is_some()
}

impl ProcessNetworkMetrics {
    /// The metrics of a process that owns the sockets among its file descriptors. `links` are the
    /// targets of the symbolic links in `/proc/<pid>/fd`.
    pub fn new(name: &str, pid: u32, links: &[String]) -> (process: Self)
        requires
            are_readable_links(texts(links@)),
        ensures
            process@ == (ProcessNetworkMetricsView {
                name: name@,
                pid,
                sockets_inodes: process@.sockets_inodes,
                total_received_bytes: 0,
                total_transmitted_bytes: 0,
            }),
            process@.sockets_inodes is Some,
            are_inodes_of(process@.sockets_inodes->0, texts(links@)),
    {
        let mut process = ProcessNetworkMetrics::unidentified(name, pid);
        process.identify_psock_inodes(links);
        process
    }

    /// The metrics of a process whose sockets have not been identified.
    pub fn unidentified(name: &str, pid: u32) -> (process: Self)
        ensures
            process@ == (ProcessNetworkMetricsView {
                name: name@,
                pid,
                sockets_inodes: None,
                total_received_bytes: 0,
                total_transmitted_bytes: 0,
            }),
    {
        ProcessNetworkMetrics {
            name: name.to_owned(),
            pid,
            sockets_inodes: None,
            total_received_bytes: 0,
            total_transmitted_bytes: 0,
        }
    }

    /// Identifies the sockets of the process by the symbolic links in `/proc/<pid>/fd`, whose
    /// targets are `links`: each link of the form `socket:[12345]` stands for the socket with that
    /// inode. The inodes are kept in ascending order.
    pub fn identify_psock_inodes(&mut self, links: &[String])
        requires
            are_readable_links(texts(links@)),
        ensures
            final(self)@ == (ProcessNetworkMetricsView {
                sockets_inodes: final(self)@.sockets_inodes,
                ..old(self)@
            }),
            final(self)@.sockets_inodes is Some,
            are_inodes_of(final(self)@.sockets_inodes->0, texts(links@)),
    {
        self.sockets_inodes = Some(read_link_inodes(links).unwrap());
    }

    /// Whether an inode is among those of the process.
    pub fn owns_inode(&self, inode: i32) -> (found: bool)
        ensures
            found == owns(self@, inode),
    {
        match &self.sockets_inodes {
            None => false,
            Some(inodes) => {
                let mut i: usize = 0;
                while i < inodes.len()
                    invariant
                        i <= inodes@.len(),
                        self@.sockets_inodes == Some(inodes@),
                        forall|k: int| 0 <= k < i ==> inodes@[k] != inode,
                    decreases inodes@.len() - i,
                {
                    if inodes[i] == inode {
                        return true;
                    }
                    i += 1;
                }
                false
            },
        }
    }

    /// Adds the traffic of sockets to the totals: what incoming ones exchanged was received, what
    /// outgoing ones exchanged was transmitted, and local ones do not count.
    pub fn update_traffic(&mut self, sockets: &[Socket])
        requires
            can_update(old(self)@, socket_views(sockets@)),
        ensures
            final(self)@ == with_traffic(old(self)@, socket_views(sockets@)),
    {
        let received: u64 = count_traffic(sockets, Direction::Incoming);
        let transmitted: u64 = count_traffic(sockets, Direction::Outgoing);
        self.total_received_bytes += received;
        self.total_transmitted_bytes += transmitted;
    }
}

/// The owner of an inode is one of the processes and owns it, and no process before it does; there
/// is none exactly when no process owns the inode.
pub proof fn law_owner_is_the_first_to_own(
    processes: Seq<ProcessNetworkMetricsView>,
    inode: i32,
)
    ensures
        match owner(processes, inode) {
            Some(process) => exists|k: int|
                {
                    &&& 0 <= k < processes.len()
                    &&& #[trigger] processes[k] == process
                    &&& owns(process, inode)
                    &&& forall|i: int| 0 <= i < k ==> !owns(#[trigger] processes[i], inode)
                },
            None => forall|i: int|
                0 <= i < processes.len() ==> !owns(#[trigger] processes[i], inode),
        },
    decreases processes.len(),
{
    if processes.len() > 0 {
        let rest = processes.drop_first();
        law_owner_is_the_first_to_own(rest, inode);
        if owns(processes[0], inode) {
            assert(processes[0] == owner(processes, inode)->0);
        } else {
            assert forall|i: int| 0 < i < processes.len() implies processes[i] == #[trigger] rest[i
                - 1] by {}
            match owner(rest, inode) {
                Some(process) => {
                    let k = choose|k: int|
                        {
                            &&& 0 <= k < rest.len()
                            &&& #[trigger] rest[k] == process
                            &&& owns(process, inode)
                            &&& forall|i: int| 0 <= i < k ==> !owns(#[trigger] rest[i], inode)
                        };
                    assert(processes[k + 1] == process);
                    assert forall|i: int| 0 <= i < k + 1 implies !owns(
                        #[trigger] processes[i],
                        inode,
                    ) by {
                        if i > 0 {
                            assert(processes[i] == rest[i - 1]);
                        }
                    }
                },
                None => {
                    assert forall|i: int| 0 <= i < processes.len() implies !owns(
                        #[trigger] processes[i],
                        inode,
                    ) by {
                        if i > 0 {
                            assert(processes[i] == rest[i - 1]);
                        }
                    }
                },
            }
        }
    }
}

/// The traffic of two series of sockets adds up.
pub proof fn law_traffic_adds_up(
    first: Seq<SocketView>,
    second: Seq<SocketView>,
    direction: Direction,
)
    ensures
        traffic(first + second, direction) == traffic(first, direction) + traffic(second, direction),
    decreases second.len(),
{
    if second.len() == 0 {
        assert(first + second =~= first);
    } else {
        law_traffic_adds_up(first, second.drop_last(), direction);
        assert((first + second).drop_last() =~= first + second.drop_last());
    }
}

/// Counting sockets in two goes gives the same totals as counting them all at once.
pub proof fn law_traffic_can_be_counted_in_parts(
    process: ProcessNetworkMetricsView,
    first: Seq<SocketView>,
    second: Seq<SocketView>,
)
    requires
        can_update(process, first + second),
    ensures
        can_update(process, first),
        can_update(with_traffic(process, first), second),
        with_traffic(with_traffic(process, first), second) == with_traffic(process, first + second),
{
    law_traffic_adds_up(first, second, Direction::Incoming);
    law_traffic_adds_up(first, second, Direction::Outgoing);
    let all = first + second;
    assert forall|i: int| 0 <= i < first.len() implies #[trigger] first[i] == all[i] by {}
    assert forall|i: int| 0 <= i < second.len() implies #[trigger] second[i] == all[first.len()
        + i] by {}
}

/// A socket with local traffic, or whose direction is not known, leaves the totals as they are,
/// wherever it stands among the others.
pub proof fn law_local_sockets_do_not_count(
    process: ProcessNetworkMetricsView,
    before: Seq<SocketView>,
    socket: SocketView,
    after: Seq<SocketView>,
)
    requires
        socket.direction == Some(Direction::Local) || socket.direction is None,
    ensures
        with_traffic(process, before + seq![socket] + after) == with_traffic(
            process,
            before + after,
        ),
{
    assert forall|direction: Direction| direction != Direction::Local implies #[trigger] traffic(
        before + seq![socket] + after,
        direction,
    ) == traffic(before + after, direction) by {
        law_traffic_adds_up(before + seq![socket], after, direction);
        law_traffic_adds_up(before, seq![socket], direction);
        law_traffic_adds_up(before, after, direction);
        assert(seq![socket].drop_last() =~= Seq::empty());
        assert(traffic(seq![socket].drop_last(), direction) == 0);
    }
}

/// The totals of a process never shrink.
pub proof fn law_totals_never_shrink(
    process: ProcessNetworkMetricsView,
    sockets: Seq<SocketView>,
)
    requires
        can_update(process, sockets),
    ensures
        with_traffic(process, sockets).total_received_bytes >= process.total_received_bytes,
        with_traffic(process, sockets).total_transmitted_bytes >= process.total_transmitted_bytes,
{
}

/// The inodes of links that name a socket do not depend on the order in which the links are listed:
/// two listings of the same links give the same inodes.
pub proof fn law_link_order_does_not_matter(
    links: Seq<Seq<char>>,
    other_links: Seq<Seq<char>>,
    inodes: Seq<i32>,
    other_inodes: Seq<i32>,
)
    requires
        links.to_multiset() == other_links.to_multiset(),
        are_inodes_of(inodes, links),
        are_inodes_of(other_inodes, other_links),
    ensures
        inodes == other_inodes,
{
    lemma_inodes_of_reordered_links(links, other_links);
    let leq = |x: i32, y: i32| x <= y;
    vstd::seq_lib::lemma_sorted_unique(inodes, other_inodes, leq);
}

/// A process owns an inode exactly when one of the links of its descriptors names it.
pub proof fn law_process_owns_what_its_links_name(
    process: ProcessNetworkMetricsView,
    links: Seq<Seq<char>>,
    inode: i32,
)
    requires
        are_readable_links(links),
        process.sockets_inodes is Some,
        are_inodes_of(process.sockets_inodes->0, links),
    ensures
        owns(process, inode) <==> exists|i: int|
            {
                &&& 0 <= i < links.len()
                &&& is_socket_link(#[trigger] links[i])
                &&& link_inode(links[i]) == Some(inode as int)
            },
{
    let inodes = process.sockets_inodes->0;
    inodes.to_multiset_ensures();
    link_inodes(links).to_multiset_ensures();
    assert(inodes.contains(inode) <==> inodes.to_multiset().count(inode) > 0);
    assert(link_inodes(links).contains(inode) <==> link_inodes(links).to_multiset().count(inode)
        > 0);
    lemma_link_inodes_contain(links, inode);
}

/// The link of a socket's descriptor gives back the inode with which it was written.
pub proof fn law_socket_link_reads_back(inode: i32)
    ensures
        is_socket_link("socket:["@ + signed_decimal(inode as int) + "]"@),
        link_inode("socket:["@ + signed_decimal(inode as int) + "]"@) == Some(inode as int),
{
    let number = signed_decimal(inode as int);
    let link = "socket:["@ + number + "]"@;
    reveal_strlit("socket");
    reveal_strlit("socket:[");
    reveal_strlit("]");
    law_decimal_reads_back(inode);
    assert(link.take(6) =~= "socket"@);
    assert(link.take(8) =~= "socket:["@);
    assert(link.skip(8) =~= number + "]"@);
    assert((number + "]"@).drop_last() =~= number);
}

/// Taking a socket out takes its traffic out.
proof fn lemma_taking_a_socket_out(sockets: Seq<SocketView>, k: int, direction: Direction)
    requires
        0 <= k < sockets.len(),
    ensures
        traffic(sockets, direction) == traffic(sockets.remove(k), direction) + contribution(
            sockets[k],
            direction,
        ),
{
    let front = sockets.take(k);
    let one = seq![sockets[k]];
    let back = sockets.skip(k + 1);
    law_traffic_adds_up(front + one, back, direction);
    law_traffic_adds_up(front, one, direction);
    law_traffic_adds_up(front, back, direction);
    assert(sockets =~= front + one + back);
    assert(sockets.remove(k) =~= front + back);
    assert(one.drop_last() =~= Seq::empty());
    assert(traffic(one.drop_last(), direction) == 0);
}

/// The traffic of sockets does not depend on the order in which they are listed.
pub proof fn law_socket_order_does_not_matter(
    sockets: Seq<SocketView>,
    other_sockets: Seq<SocketView>,
    direction: Direction,
)
    requires
        sockets.to_multiset() == other_sockets.to_multiset(),
    ensures
        traffic(sockets, direction) == traffic(other_sockets, direction),
    decreases sockets.len(),
{
    sockets.to_multiset_ensures();
    other_sockets.to_multiset_ensures();
    if sockets.len() > 0 {
        let last = sockets.last();
        assert(sockets.contains(last));
        assert(other_sockets.to_multiset().count(last) > 0);
        let k = choose|k: int| 0 <= k < other_sockets.len() && other_sockets[k] == last;
        let front = sockets.drop_last();
        let others = other_sockets.remove(k);
        assert(sockets =~= front.push(last));
        front.to_multiset_ensures();
        assert(front.to_multiset() =~= sockets.to_multiset().remove(last));
        assert(others.to_multiset() =~= other_sockets.to_multiset().remove(last));
        law_socket_order_does_not_matter(front, others, direction);
        lemma_taking_a_socket_out(other_sockets, k, direction);
    }
}

/// Updating a process with one socket adds what the socket exchanged to the received total if its
/// traffic is incoming and to the transmitted total if it is outgoing, however much it is, and
/// changes nothing else.
pub proof fn law_one_socket_adds_what_it_exchanged(
    process: ProcessNetworkMetricsView,
    socket: SocketView,
    size: u64,
)
    requires
        socket.app_packets_size == Some(size),
        socket.direction == Some(Direction::Incoming) ==> process.total_received_bytes + size
            <= u64::MAX,
        socket.direction == Some(Direction::Outgoing) ==> process.total_transmitted_bytes + size
            <= u64::MAX,
    ensures
        can_update(process, seq![socket]),
        ({
            let after = with_traffic(process, seq![socket]);
            &&& after.total_received_bytes == process.total_received_bytes + (if socket.direction
                == Some(Direction::Incoming) {
                size as int
            } else {
                0
            })
            &&& after.total_transmitted_bytes == process.total_transmitted_bytes
                + (if socket.direction == Some(Direction::Outgoing) {
                size as int
            } else {
                0
            })
            &&& after.name == process.name
            &&& after.pid == process.pid
            &&& after.sockets_inodes == process.sockets_inodes
        }),
{
    reveal_with_fuel(traffic, 2);
    assert(seq![socket].drop_last() =~= Seq::empty());
}

/// A socket with local traffic, or whose direction is not known, need not have been measured, and
/// updating with it changes nothing.
pub proof fn law_one_local_socket_changes_nothing(
    process: ProcessNetworkMetricsView,
    socket: SocketView,
)
    requires
        socket.direction == Some(Direction::Local) || socket.direction is None,
    ensures
        can_update(process, seq![socket]),
        with_traffic(process, seq![socket]) == process,
{
    reveal_with_fuel(traffic, 2);
    assert(seq![socket].drop_last() =~= Seq::empty());
}

/// Updating with no socket changes nothing.
pub proof fn law_no_sockets_change_nothing(process: ProcessNetworkMetricsView)
    ensures
        can_update(process, Seq::empty()),
        with_traffic(process, Seq::empty()) == process,
{
}

/// Where sockets can be counted one after the other, they can be counted all at once, with the same
/// totals.
pub proof fn law_traffic_can_be_counted_at_once(
    process: ProcessNetworkMetricsView,
    first: Seq<SocketView>,
    second: Seq<SocketView>,
)
    requires
        can_update(process, first),
        can_update(with_traffic(process, first), second),
    ensures
        can_update(process, first + second),
        with_traffic(process, first + second) == with_traffic(with_traffic(process, first), second),
{
    law_traffic_adds_up(first, second, Direction::Incoming);
    law_traffic_adds_up(first, second, Direction::Outgoing);
    let all = first + second;
    assert forall|i: int| 0 <= i < all.len() implies {
        (#[trigger] all[i]).direction == Some(Direction::Incoming) || all[i].direction == Some(
            Direction::Outgoing,
        ) ==> all[i].app_packets_size is Some
    } by {
        if i < first.len() {
            assert(all[i] == first[i]);
        } else {
            assert(all[i] == second[i - first.len()]);
        }
    }
}

/// A process owns an inode exactly when its sockets have been identified and the inode stands among
/// theirs.
pub proof fn law_owned_inodes(process: ProcessNetworkMetricsView, inode: i32)
    ensures
        process.sockets_inodes is None ==> !owns(process, inode),
        process.sockets_inodes matches Some(inodes) ==> (owns(process, inode) <==> exists|i: int|
            0 <= i < inodes.len() && inodes[i] == inode),
{
}

/// A link that does not begin with the letters of `socket` is passed over, whatever it names.
pub proof fn law_other_links_are_passed_over(links: Seq<Seq<char>>, link: Seq<char>)
    requires
        link.len() < 6 || !(link[0] == 's' && link[1] == 'o' && link[2] == 'c' && link[3] == 'k'
            && link[4] == 'e' && link[5] == 't'),
    ensures
        link_inodes(links.push(link)) == link_inodes(links),
        are_readable_links(links) ==> are_readable_links(links.push(link)),
{
    reveal_strlit("socket");
    let grown = links.push(link);
    assert(!is_socket_link(link)) by {
        if is_socket_link(link) {
            let front = link.take(6);
            assert(front == "socket"@);
            assert(link[0] == front[0] && link[1] == front[1] && link[2] == front[2] && link[3]
                == front[3] && link[4] == front[4] && link[5] == front[5]);
        }
    }
    assert(grown.drop_last() =~= links);
    assert forall|i: int|
        0 <= i < grown.len() && are_readable_links(links) && is_socket_link(
            #[trigger] grown[i],
        ) implies link_inode(grown[i]) is Some by {
        if i < links.len() {
            assert(grown[i] == links[i]);
        }
    }
}

/// One more link of a socket, however its inode is written, gives one more inode: the number between
/// the brackets.
pub proof fn law_socket_links_give_their_inodes(
    links: Seq<Seq<char>>,
    number: Seq<char>,
    inode: i32,
)
    requires
        decimal_i32(number) == Some(inode as int),
    ensures
        link_inodes(links.push("socket:["@ + number + "]"@)) == link_inodes(links).push(inode),
        are_readable_links(links) ==> are_readable_links(links.push("socket:["@ + number + "]"@)),
{
    let link = "socket:["@ + number + "]"@;
    let grown = links.push(link);
    lemma_socket_link(number);
    assert(grown.drop_last() =~= links);
    assert forall|i: int|
        0 <= i < grown.len() && are_readable_links(links) && is_socket_link(
            #[trigger] grown[i],
        ) implies link_inode(grown[i]) is Some by {
        if i < links.len() {
            assert(grown[i] == links[i]);
        }
    }
}

proof fn lemma_socket_link(number: Seq<char>)
    ensures
        is_socket_link("socket:["@ + number + "]"@),
        link_inode("socket:["@ + number + "]"@) == decimal_i32(number),
{
    let link = "socket:["@ + number + "]"@;
    reveal_strlit("socket");
    reveal_strlit("socket:[");
    reveal_strlit("]");
    assert(link.take(6) =~= "socket"@);
    assert(link.take(8) =~= "socket:["@);
    assert(link.skip(8) =~= number + "]"@);
    assert((number + "]"@).drop_last() =~= number);
}

/// Links cannot be read if one of them begins with the letters of `socket` and is not a number in
/// brackets behind `socket:`.
pub proof fn law_other_socket_links_cannot_be_read(links: Seq<Seq<char>>, index: int)
    requires
        0 <= index < links.len(),
        links[index].len() >= 6,
        links[index][0] == 's' && links[index][1] == 'o' && links[index][2] == 'c',
        links[index][3] == 'k' && links[index][4] == 'e' && links[index][5] == 't',
        forall|number: Seq<char>| #[trigger]
            decimal_i32(number) is Some ==> links[index] != "socket:["@ + number + "]"@,
    ensures
        !are_readable_links(links),
{
    let link = links[index];
    reveal_strlit("socket");
    reveal_strlit("socket:[");
    reveal_strlit("]");
    assert(link.take(6) =~= "socket"@);
    assert(is_socket_link(link));
    if link_inode(link) is Some {
        let number = link.skip(8).drop_last();
        assert(link.take(8) == "socket:["@);
        assert(decimal_i32(number) is Some);
        assert(link =~= link.take(8) + number + "]"@);
    }
}

/// No links give no inodes.
pub proof fn law_no_links_give_no_inodes()
    ensures
        are_readable_links(Seq::empty()),
        link_inodes(Seq::empty()).len() == 0,
{
}

/// The inodes of a process are as many as those that its links give, each as often, from the least
/// to the greatest.
pub proof fn law_inodes_are_those_of_the_links(inodes: Seq<i32>, links: Seq<Seq<char>>)
    requires
        are_inodes_of(inodes, links),
    ensures
        forall|i: int, j: int| 0 <= i < j < inodes.len() ==> inodes[i] <= inodes[j],
        inodes.to_multiset() == link_inodes(links).to_multiset(),
        inodes.len() == link_inodes(links).len(),
{
    inodes.to_multiset_ensures();
    link_inodes(links).to_multiset_ensures();
}

/// The view of a process's metrics shows all of their fields.
pub proof fn law_process_view(process: ProcessNetworkMetrics)
    ensures
        process@.name == process.name@,
        process@.pid == process.pid,
        process.sockets_inodes matches Some(inodes) ==> process@.sockets_inodes == Some(inodes@),
        process.sockets_inodes is None ==> process@.sockets_inodes is None,
        process@.total_received_bytes == process.total_received_bytes,
        process@.total_transmitted_bytes == process.total_transmitted_bytes,
{
}

} // verus!

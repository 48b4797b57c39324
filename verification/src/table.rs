//! The socket tables `/proc/net/tcp`, `/proc/net/udp` and their IPv6 counterparts: a header line,
//! then one line per socket.
use vstd::prelude::*;

use crate::address::{is_among, IpAddr};
use crate::hex::{
    address_hex, address_of_hex, is_address_hex, is_port_hex, law_address_hex_reads_back,
    law_port_hex_reads_back, lemma_segment_figures, port_of_hex, read_address_hex, read_port_hex,
    segment_hex, ParsingError,
};
use crate::number::{decimal_i32, digit, law_decimal_reads_back, read_decimal_i32, signed_decimal};
use crate::text::{
    characters, contents, ended_lines, is_blank, is_white_space, join, law_lines_read_back,
    law_split_undoes_join, law_white_space_around_a_text_is_trimmed, lines, pieces, split,
    text_lines, trim, trimmed,
};

verus! {

/// The index of the column that holds the local address and port of a socket.
pub const SOURCE_COLUMN: usize = 1;

/// The index of the column that holds the remote address and port of a socket.
pub const DESTINATION_COLUMN: usize = 2;

/// The index of the column that holds the inode of a socket, empty columns counted.
pub const INODE_COLUMN: usize = 20;

/// What a line of a socket table tells of a socket.
#[derive(Clone, Copy, Debug, PartialEq, Eq, Structural)]
pub struct SocketEntry {
    pub inode: i32,
    pub source_ip: IpAddr,
    pub destination_ip: IpAddr,
    pub source_port: u32,
    pub destination_port: u32,
}

/// The columns of a line, each space between them counted: runs of spaces make empty columns.
pub open spec fn columns(line: Seq<char>) -> Seq<Seq<char>> {
    split(trim(line), ' ')
}

/// The address in a column of the form `0100007F:0277`.
pub open spec fn column_address(column: Seq<char>) -> Option<IpAddr> {
    let text = split(column, ':')[0];
    if is_address_hex(text) {
        match address_of_hex(text) {
            Ok(address) => Some(address),
            Err(_) => None,
        }
    } else {
        None
    }
}

/// The port in a column of the form `0100007F:0277`.
pub open spec fn column_port(column: Seq<char>) -> Option<u32> {
    let parts = split(column, ':');
    if parts.len() > 1 && is_port_hex(parts[1]) {
        match port_of_hex(parts[1]) {
            Ok(port) => Some(port),
            Err(_) => None,
        }
    } else {
        None
    }
}

/// The local address on a line.
pub open spec fn line_source(line: Seq<char>) -> Option<IpAddr> {
    if columns(line).len() > SOURCE_COLUMN {
        column_address(columns(line)[SOURCE_COLUMN as int])
    } else {
        None
    }
}

/// The inode on a line.
pub open spec fn line_inode(line: Seq<char>) -> Option<int> {
    if columns(line).len() > INODE_COLUMN {
        decimal_i32(columns(line)[INODE_COLUMN as int])
    } else {
        None
    }
}

/// The socket on a line, if everything about it can be read.
pub open spec fn line_entry(line: Seq<char>) -> Option<SocketEntry> {
    let source = columns(line)[SOURCE_COLUMN as int];
    let destination = columns(line)[DESTINATION_COLUMN as int];
    match (
        line_inode(line),
        column_address(source),
        column_address(destination),
        column_port(source),
        column_port(destination),
    ) {
        (
            Some(inode),
            Some(source_ip),
            Some(destination_ip),
            Some(source_port),
            Some(destination_port),
        ) => Some(
            SocketEntry {
                inode: inode as i32,
                source_ip,
                destination_ip,
                source_port,
                destination_port,
            },
        ),
        _ => None,
    }
}

/// The lines of a table that stand for sockets: all but the header.
pub open spec fn socket_lines(table: Seq<char>) -> Seq<Seq<char>> {
    lines(table).drop_first()
}

/// Whether a table has its header and every socket in it has an inode.
pub open spec fn has_inodes(table: Seq<char>) -> bool {
    &&& lines(table).len() >= 1
    &&& forall|i: int|
        0 <= i < socket_lines(table).len() ==> line_inode(#[trigger] socket_lines(table)[i]) is Some
}

/// The inodes of the sockets in a table, in its order.
pub open spec fn table_inodes(table: Seq<char>) -> Seq<i32> {
    socket_lines(table).map_values(|line: Seq<char>| line_inode(line)->0 as i32)
}

/// Whether the local address of a line can be read and, if it is one of `local_ips`, everything
/// else about the socket too.
pub open spec fn is_readable_line(line: Seq<char>, local_ips: Seq<IpAddr>) -> bool {
    line_source(line) matches Some(source) && (local_ips.contains(source) ==> line_entry(
        line,
    ) is Some)
}

/// Whether a table has its header and each of its other lines can be read as far as it is needed
/// to find the sockets of `local_ips`.
pub open spec fn is_readable_table(table: Seq<char>, local_ips: Seq<IpAddr>) -> bool {
    &&& lines(table).len() >= 1
    &&& forall|i: int|
        0 <= i < socket_lines(table).len() ==> is_readable_line(
            #[trigger] socket_lines(table)[i],
            local_ips,
        )
}

/// The sockets among some lines whose local address is one of `local_ips`, in the order of the
/// lines.
pub open spec fn local_entries(rows: Seq<Seq<char>>, local_ips: Seq<IpAddr>) -> Seq<SocketEntry>
    decreases rows.len(),
{
    if rows.len() == 0 {
        Seq::empty()
    } else {
        let before = local_entries(rows.drop_last(), local_ips);
        if local_ips.contains(line_source(rows.last())->0) {
            before.push(line_entry(rows.last())->0)
        } else {
            before
        }
    }
}

/// The sockets in a table whose local address is one of `local_ips`.
pub open spec fn table_entries(table: Seq<char>, local_ips: Seq<IpAddr>) -> Seq<SocketEntry> {
    local_entries(socket_lines(table), local_ips)
}

/// Reads the address in a column.
fn read_column_address(column: &[char]) -> (address: Option<IpAddr>)
    ensures
        address == column_address(column@),
{
    let parts = pieces(column, ':');
    assert(contents(parts@)[0] == parts@[0]@);
    read_address_hex(parts[0])
}

/// Reads the port in a column.
fn read_column_port(column: &[char]) -> (port: Option<u32>)
    ensures
        port == column_port(column@),
{
    let parts = pieces(column, ':');
    if parts.len() > 1 {
        assert(contents(parts@)[1] == parts@[1]@);
        read_port_hex(parts[1])
    } else {
        None
    }
}

/// Reads the local address on a line.
fn read_line_source(line: &[char]) -> (source: Option<IpAddr>)
    ensures
        source == line_source(line@),
{
    let found = pieces(trimmed(line), ' ');
    if found.len() > SOURCE_COLUMN {
        assert(contents(found@)[SOURCE_COLUMN as int] == found@[SOURCE_COLUMN as int]@);
        read_column_address(found[SOURCE_COLUMN])
    } else {
        None
    }
}

/// Reads the inode on a line.
fn read_line_inode(line: &[char]) -> (inode: Option<i32>)
    ensures
        match inode {
            Some(inode) => line_inode(line@) == Some(inode as int),
            None => line_inode(line@) is None,
        },
{
    let found = pieces(trimmed(line), ' ');
    if found.len() > INODE_COLUMN {
        assert(contents(found@)[INODE_COLUMN as int] == found@[INODE_COLUMN as int]@);
        read_decimal_i32(found[INODE_COLUMN])
    } else {
        None
    }
}

/// Reads the socket on a line.
fn read_line_entry(line: &[char]) -> (entry: Option<SocketEntry>)
    ensures
        entry == line_entry(line@),
{
    let inode = match read_line_inode(line) {
        Some(inode) => inode,
        None => {
            return None;
        },
    };
    let found = pieces(trimmed(line), ' ');
    assert(contents(found@) == columns(line@));
    assert(contents(found@)[SOURCE_COLUMN as int] == found@[SOURCE_COLUMN as int]@);
    assert(contents(found@)[DESTINATION_COLUMN as int] == found@[DESTINATION_COLUMN as int]@);
    let source = found[SOURCE_COLUMN];
    let destination = found[DESTINATION_COLUMN];
    match (
        read_column_address(source),
        read_column_address(destination),
        read_column_port(source),
        read_column_port(destination),
    ) {
        (
            Some(source_ip),
            Some(destination_ip),
            Some(source_port),
            Some(destination_port),
        ) => Some(
            SocketEntry { inode, source_ip, destination_ip, source_port, destination_port },
        ),
        _ => None,
    }
}

/// Reads the inodes of a table, if every socket in it has one.
fn read_inodes(table: &str) -> (inodes: Option<Vec<i32>>)
    ensures
        match inodes {
            Some(inodes) => has_inodes(table@) && inodes@ == table_inodes(table@),
            None => !has_inodes(table@),
        },
{
    let text = characters(table);
    let found = text_lines(text.as_slice());
    if found.len() == 0 {
        return None;
    }
    let ghost rows = socket_lines(table@);
    assert(contents(found@) == lines(table@));
    let mut inodes: Vec<i32> = Vec::new();
    let mut i: usize = 1;
    while i < found.len()
        invariant
            rows == socket_lines(table@),
            contents(found@) == lines(table@),
            1 <= i <= found@.len(),
            inodes@.len() == i - 1,
            forall|k: int|
                0 <= k < i - 1 ==> line_inode(#[trigger] rows[k]) == Some(inodes@[k] as int),
        decreases found@.len() - i,
    {
        assert(rows[i - 1] == contents(found@)[i as int]);
        assert(contents(found@)[i as int] == found@[i as int]@);
        match read_line_inode(found[i]) {
            Some(inode) => {
                inodes.push(inode);
            },
            None => {
                return None;
            },
        }
        i += 1;
    }
    assert(inodes@ =~= table_inodes(table@));
    Some(inodes)
}

/// Whether a table has its header and every socket in it has an inode.
pub fn can_find_inodes(table: &str) -> (answer: bool)
    ensures
        answer == has_inodes(table@),
{
    read_inodes(table).is_some()
}

/// The inodes of the sockets in a table, the header left out.
pub fn find_inodes_for_sockets(table: &str) -> (inodes: Vec<i32>)
    requires
        has_inodes(table@),
    ensures
        inodes@ == table_inodes(table@),
{
    read_inodes(table).unwrap()
}

/// Reads the sockets of `local_ips` in a table, if the table can be read so far.
#[verifier::spinoff_prover]
#[verifier::rlimit(40)]
pub fn read_local_entries(table: &str, local_ips: &[IpAddr]) -> (entries: Option<Vec<SocketEntry>>)
    ensures
        match entries {
            Some(entries) => is_readable_table(table@, local_ips@) && entries@ == table_entries(
                table@,
                local_ips@,
            ),
            None => !is_readable_table(table@, local_ips@),
        },
{
    let text = characters(table);
    let found = text_lines(text.as_slice());
    if found.len() == 0 {
        return None;
    }
    let ghost rows = socket_lines(table@);
    assert(contents(found@) == lines(table@));
    let mut entries: Vec<SocketEntry> = Vec::new();
    let mut i: usize = 1;
    assert(rows.take(0) =~= Seq::empty());
    while i < found.len()
        invariant
            rows == socket_lines(table@),
            contents(found@) == lines(table@),
            1 <= i <= found@.len(),
            forall|k: int| 0 <= k < i - 1 ==> is_readable_line(#[trigger] rows[k], local_ips@),
            entries@ == local_entries(rows.take(i - 1), local_ips@),
        decreases found@.len() - i,
    {
        assert(rows[i - 1] == contents(found@)[i as int]);
        assert(contents(found@)[i as int] == found@[i as int]@);
        assert(rows.take(i as int).drop_last() =~= rows.take(i - 1));
        assert(rows.take(i as int).last() == rows[i - 1]);
        let source = match read_line_source(found[i]) {
            Some(source) => source,
            None => {
                return None;
            },
        };
        if is_among(&source, local_ips) {
            match read_line_entry(found[i]) {
                Some(entry) => {
                    entries.push(entry);
                },
                None => {
                    return None;
                },
            }
        }
        i += 1;
    }
    assert(rows.take(i - 1) =~= rows);
    Some(entries)
}

/// Every socket that is found in a table for some local addresses has one of them as its local
/// address, and its inode is one of those of the table.
pub proof fn law_found_sockets_are_local(table: Seq<char>, local_ips: Seq<IpAddr>, index: int)
    requires
        is_readable_table(table, local_ips),
        0 <= index < table_entries(table, local_ips).len(),
    ensures
        local_ips.contains(table_entries(table, local_ips)[index].source_ip),
        table_inodes(table).contains(table_entries(table, local_ips)[index].inode),
{
    let rows = socket_lines(table);
    lemma_entries_come_from_lines(rows, local_ips, index);
    let entry = table_entries(table, local_ips)[index];
    let row = choose|row: int|
        0 <= row < rows.len() && line_entry(#[trigger] rows[row]) == Some(entry)
            && local_ips.contains(entry.source_ip);
    assert(table_inodes(table)[row] == entry.inode);
}

/// Every socket of a table whose local address is among the given ones is found.
pub proof fn law_local_sockets_are_found(table: Seq<char>, local_ips: Seq<IpAddr>, row: int)
    requires
        is_readable_table(table, local_ips),
        0 <= row < socket_lines(table).len(),
        local_ips.contains(line_source(socket_lines(table)[row])->0),
    ensures
        line_entry(socket_lines(table)[row]) is Some,
        table_entries(table, local_ips).contains(line_entry(socket_lines(table)[row])->0),
{
    let rows = socket_lines(table);
    assert(is_readable_line(rows[row], local_ips));
    lemma_local_lines_become_entries(rows, local_ips, row);
}

/// A table gives one inode for each of its lines but the header, and where every socket in it is
/// local, the sockets that are found are all of them, in the same order.
pub proof fn law_all_local_sockets_are_all_sockets(table: Seq<char>, local_ips: Seq<IpAddr>)
    requires
        is_readable_table(table, local_ips),
        forall|i: int|
            0 <= i < socket_lines(table).len() ==> local_ips.contains(
                line_source(#[trigger] socket_lines(table)[i])->0,
            ),
    ensures
        has_inodes(table),
        table_inodes(table).len() == lines(table).len() - 1,
        table_entries(table, local_ips).map_values(|entry: SocketEntry| entry.inode)
            == table_inodes(table),
{
    let rows = socket_lines(table);
    assert forall|i: int| 0 <= i < rows.len() implies line_inode(#[trigger] rows[i]) is Some by {
        assert(is_readable_line(rows[i], local_ips));
    }
    lemma_all_lines_become_entries(rows, local_ips);
    assert(table_entries(table, local_ips).map_values(|entry: SocketEntry| entry.inode)
        =~= table_inodes(table));
}

/// The rows that are read are readable without their last one.
proof fn lemma_fewer_lines_are_readable(rows: Seq<Seq<char>>, local_ips: Seq<IpAddr>)
    requires
        rows.len() > 0,
        forall|i: int| 0 <= i < rows.len() ==> is_readable_line(#[trigger] rows[i], local_ips),
    ensures
        forall|i: int|
            0 <= i < rows.drop_last().len() ==> is_readable_line(
                #[trigger] rows.drop_last()[i],
                local_ips,
            ),
{
    assert forall|i: int| 0 <= i < rows.drop_last().len() implies is_readable_line(
        #[trigger] rows.drop_last()[i],
        local_ips,
    ) by {
        assert(rows.drop_last()[i] == rows[i]);
    }
}

proof fn lemma_entries_come_from_lines(rows: Seq<Seq<char>>, local_ips: Seq<IpAddr>, index: int)
    requires
        forall|i: int| 0 <= i < rows.len() ==> is_readable_line(#[trigger] rows[i], local_ips),
        0 <= index < local_entries(rows, local_ips).len(),
    ensures
        exists|row: int|
            {
                &&& 0 <= row < rows.len()
                &&& line_entry(#[trigger] rows[row]) == Some(local_entries(rows, local_ips)[index])
                &&& local_ips.contains(local_entries(rows, local_ips)[index].source_ip)
            },
    decreases rows.len(),
{
    let front = rows.drop_last();
    lemma_fewer_lines_are_readable(rows, local_ips);
    assert(is_readable_line(rows[rows.len() - 1], local_ips));
    if index < local_entries(front, local_ips).len() {
        lemma_entries_come_from_lines(front, local_ips, index);
        let row = choose|row: int|
            {
                &&& 0 <= row < front.len()
                &&& line_entry(#[trigger] front[row]) == Some(
                    local_entries(front, local_ips)[index],
                )
                &&& local_ips.contains(local_entries(front, local_ips)[index].source_ip)
            };
        assert(rows[row] == front[row]);
    } else {
        assert(line_entry(rows[rows.len() - 1]) == Some(local_entries(rows, local_ips)[index]));
    }
}

proof fn lemma_local_lines_become_entries(rows: Seq<Seq<char>>, local_ips: Seq<IpAddr>, row: int)
    requires
        0 <= row < rows.len(),
        local_ips.contains(line_source(rows[row])->0),
    ensures
        local_entries(rows, local_ips).contains(line_entry(rows[row])->0),
    decreases rows.len(),
{
    let all = local_entries(rows, local_ips);
    let front = rows.drop_last();
    let before = local_entries(front, local_ips);
    let entry = line_entry(rows[row])->0;
    if row == rows.len() - 1 {
        assert(all[all.len() - 1] == entry);
    } else {
        lemma_local_lines_become_entries(front, local_ips, row);
        assert(front[row] == rows[row]);
        let k = choose|k: int| 0 <= k < before.len() && before[k] == entry;
        assert(all[k] == entry);
    }
}

proof fn lemma_all_lines_become_entries(rows: Seq<Seq<char>>, local_ips: Seq<IpAddr>)
    requires
        forall|i: int| 0 <= i < rows.len() ==> is_readable_line(#[trigger] rows[i], local_ips),
        forall|i: int|
            0 <= i < rows.len() ==> local_ips.contains(line_source(#[trigger] rows[i])->0),
    ensures
        local_entries(rows, local_ips).len() == rows.len(),
        forall|i: int|
            0 <= i < rows.len() ==> line_entry(#[trigger] rows[i]) == Some(
                local_entries(rows, local_ips)[i],
            ),
    decreases rows.len(),
{
    if rows.len() > 0 {
        let front = rows.drop_last();
        assert forall|i: int| 0 <= i < front.len() implies #[trigger] front[i] == rows[i] by {}
        lemma_all_lines_become_entries(front, local_ips);
        assert(is_readable_line(rows[rows.len() - 1], local_ips));
        assert forall|i: int| 0 <= i < rows.len() implies line_entry(#[trigger] rows[i]) == Some(
            local_entries(rows, local_ips)[i],
        ) by {
            if i < front.len() {
                assert(front[i] == rows[i]);
            }
        }
    }
}

/// An address and a port as a column of a table shows them.
pub open spec fn address_column(address: IpAddr, port: u16) -> Seq<char> {
    join(seq![address_hex(address), segment_hex(port)], ':')
}

/// The address and the port that a column shows are read back from it.
pub proof fn law_address_column_reads_back(address: IpAddr, port: u16)
    ensures
        column_address(address_column(address, port)) == Some(address),
        column_port(address_column(address, port)) == Some(port as u32),
{
    let parts = seq![address_hex(address), segment_hex(port)];
    law_address_hex_reads_back(address);
    law_port_hex_reads_back(port);
    lemma_segment_figures(port);
    assert(digit(':', 16) is None);
    assert forall|i: int| 0 <= i < parts.len() implies !(#[trigger] parts[i]).contains(':') by {
        assert(i == 0 || i == 1);
    }
    law_split_undoes_join(parts, ':');
}

/// The columns of a line are those that were written, one space between each two of them, if none
/// holds a space and there is no white space at the ends of the line.
pub proof fn law_columns_read_back(cells: Seq<Seq<char>>)
    requires
        cells.len() >= 1,
        forall|i: int| 0 <= i < cells.len() ==> !(#[trigger] cells[i]).contains(' '),
        cells[0].len() > 0,
        !is_white_space(cells[0][0]),
        cells.last().len() > 0,
        !is_white_space(cells.last().last()),
    ensures
        columns(join(cells, ' ')) == cells,
{
    lemma_join_ends(cells, ' ');
    law_split_undoes_join(cells, ' ');
}

proof fn lemma_join_ends(cells: Seq<Seq<char>>, separator: char)
    requires
        cells.len() >= 1,
        cells[0].len() > 0,
    ensures
        join(cells, separator).len() > 0,
        join(cells, separator)[0] == cells[0][0],
        cells.last().len() > 0 ==> join(cells, separator).last() == cells.last().last(),
    decreases cells.len(),
{
    if cells.len() > 1 {
        lemma_join_ends(cells.drop_last(), separator);
    }
}

/// A line gives back the socket with which it was written: the local address and port, the remote
/// address and port and the inode, in the columns where they belong, whatever the other columns
/// hold and whatever white space goes around the line.
pub proof fn law_line_reads_back(
    before: Seq<char>,
    cells: Seq<Seq<char>>,
    after: Seq<char>,
    inode: i32,
    source_ip: IpAddr,
    destination_ip: IpAddr,
    source_port: u16,
    destination_port: u16,
)
    requires
        is_blank(before),
        is_blank(after),
        cells.len() > 20,
        forall|i: int| 0 <= i < cells.len() ==> !(#[trigger] cells[i]).contains(' '),
        cells[0].len() > 0,
        !is_white_space(cells[0][0]),
        cells.last().len() > 0,
        !is_white_space(cells.last().last()),
        cells[1] == address_column(source_ip, source_port),
        cells[2] == address_column(destination_ip, destination_port),
        cells[20] == signed_decimal(inode as int),
    ensures
        line_inode(before + join(cells, ' ') + after) == Some(inode as int),
        line_source(before + join(cells, ' ') + after) == Some(source_ip),
        line_entry(before + join(cells, ' ') + after) == Some(
            SocketEntry {
                inode,
                source_ip,
                destination_ip,
                source_port: source_port as u32,
                destination_port: destination_port as u32,
            },
        ),
{
    law_white_space_around_a_text_is_trimmed(before, join(cells, ' '), after);
    law_columns_read_back(cells);
    law_address_column_reads_back(source_ip, source_port);
    law_address_column_reads_back(destination_ip, destination_port);
    law_decimal_reads_back(inode);
}

/// The socket lines of a table are those that were written below its header, if no line holds a
/// line feed or ends with a carriage return.
pub proof fn law_table_reads_back(header: Seq<char>, rows: Seq<Seq<char>>)
    requires
        forall|i: int|
            0 <= i < (seq![header] + rows).len() ==> {
                &&& !(#[trigger] (seq![header] + rows)[i]).contains('\n')
                &&& (seq![header] + rows)[i].len() > 0 ==> (seq![header] + rows)[i].last() != '\r'
            },
    ensures
        lines(ended_lines(seq![header] + rows)).len() >= 1,
        socket_lines(ended_lines(seq![header] + rows)) == rows,
{
    law_lines_read_back(seq![header] + rows);
    assert((seq![header] + rows).drop_first() =~= rows);
}

/// A column gives the address before its first colon and the port between that and the next one, if
/// they can be parsed, whatever follows.
pub proof fn law_column_is_read(parts: Seq<Seq<char>>, address: IpAddr, port: u32)
    requires
        parts.len() >= 1,
        forall|i: int| 0 <= i < parts.len() ==> !(#[trigger] parts[i]).contains(':'),
    ensures
        column_address(join(parts, ':')) == Some(address) <==> is_address_hex(parts[0])
            && address_of_hex(parts[0]) == Ok::<IpAddr, ParsingError>(address),
        column_port(join(parts, ':')) == Some(port) <==> parts.len() >= 2 && is_port_hex(parts[1])
            && port_of_hex(parts[1]) == Ok::<u32, ParsingError>(port),
{
    law_split_undoes_join(parts, ':');
}

/// A line gives the local address in its column 1, the remote one in its column 2 and the inode in
/// its column 20, counted from 0, whatever its other columns hold and whatever white space goes
/// around it. It gives a socket exactly when all of these and both ports can be read.
pub proof fn law_line_is_read(before: Seq<char>, cells: Seq<Seq<char>>, after: Seq<char>)
    requires
        is_blank(before),
        is_blank(after),
        cells.len() >= 1,
        forall|i: int| 0 <= i < cells.len() ==> !(#[trigger] cells[i]).contains(' '),
        cells[0].len() > 0,
        !is_white_space(cells[0][0]),
        cells.last().len() > 0,
        !is_white_space(cells.last().last()),
    ensures
        ({
            let line = before + join(cells, ' ') + after;
            &&& cells.len() > 1 ==> line_source(line) == column_address(cells[1])
            &&& cells.len() <= 1 ==> line_source(line) is None
            &&& cells.len() > 20 ==> line_inode(line) == decimal_i32(cells[20])
            &&& cells.len() <= 20 ==> line_inode(line) is None
            &&& line_entry(line) is Some <==> {
                &&& cells.len() > 20
                &&& decimal_i32(cells[20]) is Some
                &&& column_address(cells[1]) is Some
                &&& column_address(cells[2]) is Some
                &&& column_port(cells[1]) is Some
                &&& column_port(cells[2]) is Some
            }
            &&& line_entry(line) matches Some(entry) ==> {
                &&& decimal_i32(cells[20]) == Some(entry.inode as int)
                &&& column_address(cells[1]) == Some(entry.source_ip)
                &&& column_address(cells[2]) == Some(entry.destination_ip)
                &&& column_port(cells[1]) == Some(entry.source_port)
                &&& column_port(cells[2]) == Some(entry.destination_port)
            }
        }),
{
    law_white_space_around_a_text_is_trimmed(before, join(cells, ' '), after);
    law_columns_read_back(cells);
}

/// A line of white space alone gives nothing.
pub proof fn law_blank_line_gives_nothing(line: Seq<char>)
    requires
        is_blank(line),
    ensures
        line_source(line) is None,
        line_inode(line) is None,
        line_entry(line) is None,
{
    let nothing = Seq::<char>::empty();
    law_white_space_around_a_text_is_trimmed(line, nothing, nothing);
    assert(line + nothing + nothing =~= line);
    assert(trim(nothing) =~= nothing);
}

/// The inodes of a table are those of its lines but the first, one for each, in their order. They
/// can be found exactly when there is a first line and each of the others has one.
pub proof fn law_inodes_of_a_table(table: Seq<char>)
    ensures
        has_inodes(table) <==> lines(table).len() >= 1 && forall|i: int|
            1 <= i < lines(table).len() ==> line_inode(#[trigger] lines(table)[i]) is Some,
        has_inodes(table) ==> {
            &&& table_inodes(table).len() == lines(table).len() - 1
            &&& forall|i: int|
                1 <= i < lines(table).len() ==> line_inode(#[trigger] lines(table)[i]) == Some(
                    table_inodes(table)[i - 1] as int,
                )
        },
{
    let all = lines(table);
    let rows = socket_lines(table);
    if all.len() >= 1 {
        assert forall|i: int| 1 <= i < all.len() implies #[trigger] all[i] == rows[i - 1] by {}
        if has_inodes(table) {
            assert forall|i: int| 1 <= i < all.len() implies line_inode(#[trigger] all[i]) == Some(
                table_inodes(table)[i - 1] as int,
            ) by {
                assert(line_inode(rows[i - 1]) is Some);
            }
        }
        if forall|i: int| 1 <= i < all.len() ==> line_inode(#[trigger] all[i]) is Some {
            assert forall|i: int| 0 <= i < rows.len() implies line_inode(#[trigger] rows[i])
                is Some by {
                assert(rows[i] == all[i + 1]);
            }
        }
    }
}

/// A table can be read for some local addresses exactly when it has a first line and each of the
/// others gives a local address and, if that is among the given ones, a whole socket.
pub proof fn law_tables_that_can_be_read(table: Seq<char>, local_ips: Seq<IpAddr>)
    ensures
        is_readable_table(table, local_ips) <==> lines(table).len() >= 1 && forall|i: int|
            1 <= i < lines(table).len() ==> {
                &&& line_source(#[trigger] lines(table)[i]) is Some
                &&& local_ips.contains(line_source(lines(table)[i])->0) ==> line_entry(
                    lines(table)[i],
                ) is Some
            },
{
    let all = lines(table);
    let rows = socket_lines(table);
    if all.len() >= 1 {
        assert forall|i: int| 1 <= i < all.len() implies #[trigger] all[i] == rows[i - 1] by {}
        if is_readable_table(table, local_ips) {
            assert forall|i: int| 1 <= i < all.len() implies {
                &&& line_source(#[trigger] all[i]) is Some
                &&& local_ips.contains(line_source(all[i])->0) ==> line_entry(all[i]) is Some
            } by {
                assert(is_readable_line(rows[i - 1], local_ips));
            }
        }
        if forall|i: int|
            1 <= i < all.len() ==> {
                &&& line_source(#[trigger] all[i]) is Some
                &&& local_ips.contains(line_source(all[i])->0) ==> line_entry(all[i]) is Some
            } {
            assert forall|i: int| 0 <= i < rows.len() implies is_readable_line(
                #[trigger] rows[i],
                local_ips,
            ) by {
                assert(rows[i] == all[i + 1]);
            }
        }
    }
}

/// One more line in a table, written below the others, leaves the sockets that were found as they
/// are and adds its own as the last, if its local address is among the given ones.
pub proof fn law_one_more_line(
    header: Seq<char>,
    rows: Seq<Seq<char>>,
    row: Seq<char>,
    local_ips: Seq<IpAddr>,
    source_ip: IpAddr,
)
    requires
        forall|i: int|
            0 <= i < (seq![header] + rows.push(row)).len() ==> {
                &&& !(#[trigger] (seq![header] + rows.push(row))[i]).contains('\n')
                &&& (seq![header] + rows.push(row))[i].len() > 0 ==> (seq![header] + rows.push(
                    row,
                ))[i].last() != '\r'
            },
        line_source(row) == Some(source_ip),
        line_entry(row) is Some,
    ensures
        ({
            let shorter = ended_lines(seq![header] + rows);
            let longer = ended_lines(seq![header] + rows.push(row));
            &&& longer == shorter + row.push('\n')
            &&& is_readable_table(longer, local_ips) <==> is_readable_table(shorter, local_ips)
            &&& table_entries(longer, local_ips) == (if local_ips.contains(source_ip) {
                table_entries(shorter, local_ips).push(line_entry(row)->0)
            } else {
                table_entries(shorter, local_ips)
            })
        }),
{
    let few = seq![header] + rows;
    let many = seq![header] + rows.push(row);
    assert(many.drop_last() =~= few);
    assert(many.last() == row);
    assert forall|i: int| 0 <= i < few.len() implies {
        &&& !(#[trigger] few[i]).contains('\n')
        &&& few[i].len() > 0 ==> few[i].last() != '\r'
    } by {
        assert(few[i] == many[i]);
    }
    law_table_reads_back(header, rows);
    law_table_reads_back(header, rows.push(row));
    assert(rows.push(row).drop_last() =~= rows);
    let longer = ended_lines(many);
    let shorter = ended_lines(few);
    if is_readable_table(longer, local_ips) {
        assert forall|i: int| 0 <= i < rows.len() implies is_readable_line(
            #[trigger] rows[i],
            local_ips,
        ) by {
            assert(rows[i] == socket_lines(longer)[i]);
        }
    }
    if is_readable_table(shorter, local_ips) {
        assert forall|i: int| 0 <= i < rows.push(row).len() implies is_readable_line(
            #[trigger] rows.push(row)[i],
            local_ips,
        ) by {
            if i < rows.len() {
                assert(rows.push(row)[i] == socket_lines(shorter)[i]);
            }
        }
    }
}

/// A table without lines below its header can be read and holds no sockets.
pub proof fn law_table_of_no_lines(header: Seq<char>, local_ips: Seq<IpAddr>)
    requires
        !header.contains('\n'),
        header.len() > 0 ==> header.last() != '\r',
    ensures
        is_readable_table(ended_lines(seq![header]), local_ips),
        table_entries(ended_lines(seq![header]), local_ips).len() == 0,
        has_inodes(ended_lines(seq![header])),
        table_inodes(ended_lines(seq![header])).len() == 0,
{
    let rows = Seq::<Seq<char>>::empty();
    assert(seq![header] + rows =~= seq![header]);
    law_table_reads_back(header, rows);
}

/// The sockets that are found in a table are those of its lines but the first, one line after the
/// other: a line whose local address is not among the given ones adds nothing, and any other adds
/// its socket.
pub proof fn law_sockets_line_by_line(
    table: Seq<char>,
    rows: Seq<Seq<char>>,
    row: Seq<char>,
    local_ips: Seq<IpAddr>,
)
    ensures
        lines(table).len() >= 1 ==> table_entries(table, local_ips) == local_entries(
            lines(table).skip(1),
            local_ips,
        ),
        local_entries(Seq::empty(), local_ips).len() == 0,
        line_source(row) matches Some(source) ==> {
            &&& local_ips.contains(source) && line_entry(row) is Some ==> local_entries(
                rows.push(row),
                local_ips,
            ) == local_entries(rows, local_ips).push(line_entry(row)->0)
            &&& !local_ips.contains(source) ==> local_entries(rows.push(row), local_ips)
                == local_entries(rows, local_ips)
        },
{
    if lines(table).len() >= 1 {
        assert(lines(table).drop_first() =~= lines(table).skip(1));
    }
    assert(rows.push(row).drop_last() =~= rows);
}

} // verus!

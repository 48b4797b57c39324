//! Addresses and ports in the hexadecimal notation of `/proc/net`.
use vstd::prelude::*;

use crate::address::{IpAddr, Ipv4Addr, Ipv6Addr};
use crate::number::{digit, digits, lemma_numbers_are_ascii, read_unsigned, unsigned};
use crate::text::{byte_length, characters, utf8_length};

verus! {

/// Why an address or a port is refused.
#[derive(Clone, Copy, Debug, PartialEq, Eq, Structural)]
pub enum ParsingError {
    /// A port that is not four bytes long.
    UnparsablePort,
    /// An address that is neither eight nor thirty-two bytes long.
    UnparsableIpAddress,
}

/// The number in the `i`-th group of two hexadecimal characters.
pub open spec fn hex_octet(text: Seq<char>, i: int) -> Option<nat> {
    unsigned(text.subrange(2 * i, 2 * i + 2), 16, 0xff)
}

/// The number in the `i`-th group of four hexadecimal characters.
pub open spec fn hex_segment(text: Seq<char>, i: int) -> Option<nat> {
    unsigned(text.subrange(4 * i, 4 * i + 4), 16, 0xffff)
}

/// Whether a text is made of groups of two characters, four groups at least, each of which is a
/// hexadecimal number.
pub open spec fn is_ipv4_hex(text: Seq<char>) -> bool {
    &&& text.len() >= 8
    &&& text.len() % 2 == 0
    &&& forall|i: int| 0 <= i < text.len() / 2 ==> hex_octet(text, i) is Some
}

/// Whether a text is made of groups of four characters, eight groups at least, each of which is a
/// hexadecimal number.
pub open spec fn is_ipv6_hex(text: Seq<char>) -> bool {
    &&& text.len() >= 32
    &&& text.len() % 4 == 0
    &&& forall|i: int| 0 <= i < text.len() / 4 ==> hex_segment(text, i) is Some
}

/// The IPv4 address in hexadecimal notation: the last octet comes first.
pub open spec fn ipv4_of_hex(text: Seq<char>) -> Ipv4Addr {
    Ipv4Addr {
        a: hex_octet(text, 3)->0 as u8,
        b: hex_octet(text, 2)->0 as u8,
        c: hex_octet(text, 1)->0 as u8,
        d: hex_octet(text, 0)->0 as u8,
    }
}

/// The IPv6 address in hexadecimal notation: the segments in their order.
pub open spec fn ipv6_of_hex(text: Seq<char>) -> Ipv6Addr {
    Ipv6Addr {
        a: hex_segment(text, 0)->0 as u16,
        b: hex_segment(text, 1)->0 as u16,
        c: hex_segment(text, 2)->0 as u16,
        d: hex_segment(text, 3)->0 as u16,
        e: hex_segment(text, 4)->0 as u16,
        f: hex_segment(text, 5)->0 as u16,
        g: hex_segment(text, 6)->0 as u16,
        h: hex_segment(text, 7)->0 as u16,
    }
}

/// Whether a text as long as an address is one.
pub open spec fn is_address_hex(text: Seq<char>) -> bool {
    &&& byte_length(text) == 8 ==> is_ipv4_hex(text)
    &&& byte_length(text) == 32 ==> is_ipv6_hex(text)
}

/// The address in hexadecimal notation; its length tells the version.
pub open spec fn address_of_hex(text: Seq<char>) -> Result<IpAddr, ParsingError> {
    if byte_length(text) == 8 {
        Ok(IpAddr::V4(ipv4_of_hex(text)))
    } else if byte_length(text) == 32 {
        Ok(IpAddr::V6(ipv6_of_hex(text)))
    } else {
        Err(ParsingError::UnparsableIpAddress)
    }
}

/// Whether a text as long as a port is one.
pub open spec fn is_port_hex(text: Seq<char>) -> bool {
    byte_length(text) == 4 ==> unsigned(text, 16, 0xffff) is Some
}

/// The port in hexadecimal notation.
pub open spec fn port_of_hex(text: Seq<char>) -> Result<u32, ParsingError> {
    if byte_length(text) == 4 {
        Ok(unsigned(text, 16, 0xffff)->0 as u32)
    } else {
        Err(ParsingError::UnparsablePort)
    }
}

/// Reads the `i`-th group of two characters.
fn read_octet(text: &[char], i: usize) -> (value: Option<u8>)
    requires
        2 * i + 2 <= text@.len(),
    ensures
        match value {
            Some(value) => hex_octet(text@, i as int) == Some(value as nat),
            None => hex_octet(text@, i as int) is None,
        },
{
    let length: usize = text.len();
    assert(2 * i + 2 <= length);
    match read_unsigned(vstd::slice::slice_subrange(text, 2 * i, 2 * i + 2), 16, 0xff) {
        Some(value) => Some(value as u8),
        None => None,
    }
}

/// Reads the `i`-th group of four characters.
fn read_segment(text: &[char], i: usize) -> (value: Option<u16>)
    requires
        4 * i + 4 <= text@.len(),
    ensures
        match value {
            Some(value) => hex_segment(text@, i as int) == Some(value as nat),
            None => hex_segment(text@, i as int) is None,
        },
{
    let length: usize = text.len();
    assert(4 * i + 4 <= length);
    match read_unsigned(vstd::slice::slice_subrange(text, 4 * i, 4 * i + 4), 16, 0xffff) {
        Some(value) => Some(value as u16),
        None => None,
    }
}

/// Reads an IPv4 address, if the text is one.
pub fn read_ipv4_hex(text: &[char]) -> (address: Option<Ipv4Addr>)
    ensures
        match address {
            Some(address) => is_ipv4_hex(text@) && address == ipv4_of_hex(text@),
            None => !is_ipv4_hex(text@),
        },
{
    if text.len() < 8 || text.len() % 2 != 0 {
        return None;
    }
    let mut octets: Vec<u8> = Vec::new();
    let mut i: usize = 0;
    while i < text.len() / 2
        invariant
            i <= text@.len() / 2,
            octets@.len() == i,
            forall|k: int|
                0 <= k < i ==> #[trigger] hex_octet(text@, k) == Some(octets@[k] as nat),
        decreases text@.len() / 2 - i,
    {
        match read_octet(text, i) {
            Some(octet) => {
                octets.push(octet);
            },
            None => {
                return None;
            },
        }
        i += 1;
    }
    assert(hex_octet(text@, 0) is Some && hex_octet(text@, 1) is Some && hex_octet(text@, 2) is Some
        && hex_octet(text@, 3) is Some);
    Some(Ipv4Addr::new(octets[3], octets[2], octets[1], octets[0]))
}

/// Reads an IPv6 address, if the text is one.
pub fn read_ipv6_hex(text: &[char]) -> (address: Option<Ipv6Addr>)
    ensures
        match address {
            Some(address) => is_ipv6_hex(text@) && address == ipv6_of_hex(text@),
            None => !is_ipv6_hex(text@),
        },
{
    if text.len() < 32 || text.len() % 4 != 0 {
        return None;
    }
    let mut segments: Vec<u16> = Vec::new();
    let mut i: usize = 0;
    while i < text.len() / 4
        invariant
            i <= text@.len() / 4,
            segments@.len() == i,
            forall|k: int|
                0 <= k < i ==> #[trigger] hex_segment(text@, k) == Some(segments@[k] as nat),
        decreases text@.len() / 4 - i,
    {
        match read_segment(text, i) {
            Some(segment) => {
                segments.push(segment);
            },
            None => {
                return None;
            },
        }
        i += 1;
    }
    assert(hex_segment(text@, 0) is Some && hex_segment(text@, 1) is Some && hex_segment(text@, 2)
        is Some && hex_segment(text@, 3) is Some && hex_segment(text@, 4) is Some && hex_segment(
        text@,
        5,
    ) is Some && hex_segment(text@, 6) is Some && hex_segment(text@, 7) is Some);
    Some(
        Ipv6Addr::new(
            segments[0],
            segments[1],
            segments[2],
            segments[3],
            segments[4],
            segments[5],
            segments[6],
            segments[7],
        ),
    )
}

/// Reads an address, if the text is one: `None` also where it is of no address's length.
pub fn read_address_hex(text: &[char]) -> (address: Option<IpAddr>)
    ensures
        match address {
            Some(address) => is_address_hex(text@) && address_of_hex(text@) == Ok::<
                IpAddr,
                ParsingError,
            >(address),
            None => !is_address_hex(text@) || address_of_hex(text@) is Err,
        },
{
    let length: u128 = utf8_length(text);
    if length == 8 {
        match read_ipv4_hex(text) {
            Some(address) => Some(IpAddr::V4(address)),
            None => None,
        }
    } else if length == 32 {
        match read_ipv6_hex(text) {
            Some(address) => Some(IpAddr::V6(address)),
            None => None,
        }
    } else {
        None
    }
}

/// Reads a port, if the text is one: `None` also where it is not of a port's length.
pub fn read_port_hex(text: &[char]) -> (port: Option<u32>)
    ensures
        match port {
            Some(port) => is_port_hex(text@) && port_of_hex(text@) == Ok::<u32, ParsingError>(port),
            None => !is_port_hex(text@) || port_of_hex(text@) is Err,
        },
{
    if utf8_length(text) == 4 {
        read_unsigned(text, 16, 0xffff)
    } else {
        None
    }
}

/// Parses an address; the length of the text tells the version.
pub fn parse_address_from_hex(hex_string: &str) -> (address: Result<IpAddr, ParsingError>)
    requires
        is_address_hex(hex_string@),
    ensures
        address == address_of_hex(hex_string@),
{
    let text = characters(hex_string);
    match read_address_hex(text.as_slice()) {
        Some(address) => Ok(address),
        None => Err(ParsingError::UnparsableIpAddress),
    }
}

/// Parses an IPv4 address, whose octets come in little-endian order.
pub fn parse_ipv4(hex_string: &str) -> (address: Ipv4Addr)
    requires
        is_ipv4_hex(hex_string@),
    ensures
        address == ipv4_of_hex(hex_string@),
{
    let text = characters(hex_string);
    read_ipv4_hex(text.as_slice()).unwrap()
}

/// Parses an IPv6 address.
pub fn parse_ipv6(hex_string: &str) -> (address: Ipv6Addr)
    requires
        is_ipv6_hex(hex_string@),
    ensures
        address == ipv6_of_hex(hex_string@),
{
    let text = characters(hex_string);
    read_ipv6_hex(text.as_slice()).unwrap()
}

/// Parses a port.
pub fn parse_port_from_hex(hex_string: &str) -> (port: Result<u32, ParsingError>)
    requires
        is_port_hex(hex_string@),
    ensures
        port == port_of_hex(hex_string@),
{
    let text = characters(hex_string);
    match read_port_hex(text.as_slice()) {
        Some(port) => Ok(port),
        None => Err(ParsingError::UnparsablePort),
    }
}

/// The figure for a number below sixteen.
pub open spec fn figure(value: int) -> char {
    if value < 10 {
        ('0' as int + value) as char
    } else {
        ('A' as int + value - 10) as char
    }
}

/// Whether a text is made of hexadecimal figures alone.
pub open spec fn are_figures(text: Seq<char>) -> bool {
    forall|i: int| 0 <= i < text.len() ==> digit(#[trigger] text[i], 16) is Some
}

/// An octet in two hexadecimal figures.
pub open spec fn octet_hex(octet: u8) -> Seq<char> {
    seq![figure(octet as int / 16), figure(octet as int % 16)]
}

/// A segment, or a port, in four hexadecimal figures.
pub open spec fn segment_hex(segment: u16) -> Seq<char> {
    seq![
        figure(segment as int / 4096),
        figure(segment as int / 256 % 16),
        figure(segment as int / 16 % 16),
        figure(segment as int % 16),
    ]
}

/// An IPv4 address in hexadecimal notation.
pub open spec fn ipv4_hex(address: Ipv4Addr) -> Seq<char> {
    octet_hex(address.d) + octet_hex(address.c) + octet_hex(address.b) + octet_hex(address.a)
}

/// An IPv6 address in hexadecimal notation.
pub open spec fn ipv6_hex(address: Ipv6Addr) -> Seq<char> {
    segment_hex(address.a) + segment_hex(address.b) + segment_hex(address.c) + segment_hex(
        address.d,
    ) + segment_hex(address.e) + segment_hex(address.f) + segment_hex(address.g) + segment_hex(
        address.h,
    )
}

proof fn lemma_figure(value: int)
    requires
        0 <= value < 16,
    ensures
        digit(figure(value), 16) == Some(value as nat),
        figure(value) != '+',
{
}

proof fn lemma_octet_reads_back(octet: u8)
    ensures
        octet_hex(octet).len() == 2,
        unsigned(octet_hex(octet), 16, 0xff) == Some(octet as nat),
{
    let text = octet_hex(octet);
    lemma_figure(octet as int / 16);
    lemma_figure(octet as int % 16);
    reveal_with_fuel(digits, 2);
    assert(text.drop_last() =~= seq![figure(octet as int / 16)]);
}

proof fn lemma_segment_reads_back(segment: u16)
    ensures
        segment_hex(segment).len() == 4,
        unsigned(segment_hex(segment), 16, 0xffff) == Some(segment as nat),
{
    let n = segment as int;
    let text = segment_hex(segment);
    lemma_figure(n / 4096);
    lemma_figure(n / 256 % 16);
    lemma_figure(n / 16 % 16);
    lemma_figure(n % 16);
    let three = seq![figure(n / 4096), figure(n / 256 % 16), figure(n / 16 % 16)];
    let two = seq![figure(n / 4096), figure(n / 256 % 16)];
    let one = seq![figure(n / 4096)];
    assert(text.drop_last() =~= three);
    assert(three.drop_last() =~= two);
    assert(two.drop_last() =~= one);
    assert(digits(one, 16) == Some((n / 4096) as nat));
    assert(digits(two, 16) == Some((n / 256) as nat));
    assert(digits(three, 16) == Some((n / 16) as nat));
}

/// Every IPv4 address can be written in hexadecimal notation, and parsing gives it back.
pub proof fn law_ipv4_hex_reads_back(address: Ipv4Addr)
    ensures
        is_address_hex(ipv4_hex(address)),
        address_of_hex(ipv4_hex(address)) == Ok::<IpAddr, ParsingError>(IpAddr::V4(address)),
{
    let text = ipv4_hex(address);
    lemma_octet_reads_back(address.a);
    lemma_octet_reads_back(address.b);
    lemma_octet_reads_back(address.c);
    lemma_octet_reads_back(address.d);
    assert(text.subrange(0, 2) =~= octet_hex(address.d));
    assert(text.subrange(2, 4) =~= octet_hex(address.c));
    assert(text.subrange(4, 6) =~= octet_hex(address.b));
    assert(text.subrange(6, 8) =~= octet_hex(address.a));
    assert forall|i: int| 0 <= i < text.len() / 2 implies hex_octet(text, i) is Some by {
        assert(i == 0 || i == 1 || i == 2 || i == 3);
    }
    lemma_ipv4_figures(address);
    lemma_figures_are_bytes(text);
}

/// The notation of an IPv4 address is made of hexadecimal figures alone.
proof fn lemma_ipv4_figures(address: Ipv4Addr)
    ensures
        are_figures(ipv4_hex(address)),
{
    lemma_octet_figures(address.a);
    lemma_octet_figures(address.b);
    lemma_octet_figures(address.c);
    lemma_octet_figures(address.d);
    let two = octet_hex(address.d) + octet_hex(address.c);
    let three = two + octet_hex(address.b);
    lemma_more_figures(octet_hex(address.d), octet_hex(address.c));
    lemma_more_figures(two, octet_hex(address.b));
    lemma_more_figures(three, octet_hex(address.a));
}

/// Eight groups of four characters, put together, can be taken apart again.
proof fn lemma_eight_groups(
    a: Seq<char>,
    b: Seq<char>,
    c: Seq<char>,
    d: Seq<char>,
    e: Seq<char>,
    f: Seq<char>,
    g: Seq<char>,
    h: Seq<char>,
)
    requires
        a.len() == 4,
        b.len() == 4,
        c.len() == 4,
        d.len() == 4,
        e.len() == 4,
        f.len() == 4,
        g.len() == 4,
        h.len() == 4,
    ensures
        ({
            let text = a + b + c + d + e + f + g + h;
            &&& text.len() == 32
            &&& text.subrange(0, 4) == a
            &&& text.subrange(4, 8) == b
            &&& text.subrange(8, 12) == c
            &&& text.subrange(12, 16) == d
            &&& text.subrange(16, 20) == e
            &&& text.subrange(20, 24) == f
            &&& text.subrange(24, 28) == g
            &&& text.subrange(28, 32) == h
        }),
{
    let text = a + b + c + d + e + f + g + h;
    assert(text.subrange(0, 4) =~= a);
    assert(text.subrange(4, 8) =~= b);
    assert(text.subrange(8, 12) =~= c);
    assert(text.subrange(12, 16) =~= d);
    assert(text.subrange(16, 20) =~= e);
    assert(text.subrange(20, 24) =~= f);
    assert(text.subrange(24, 28) =~= g);
    assert(text.subrange(28, 32) =~= h);
}

/// Every group of the notation of an IPv6 address is that of one of its segments.
proof fn lemma_ipv6_groups(address: Ipv6Addr)
    ensures
        ipv6_hex(address).len() == 32,
        hex_segment(ipv6_hex(address), 0) == Some(address.a as nat),
        hex_segment(ipv6_hex(address), 1) == Some(address.b as nat),
        hex_segment(ipv6_hex(address), 2) == Some(address.c as nat),
        hex_segment(ipv6_hex(address), 3) == Some(address.d as nat),
        hex_segment(ipv6_hex(address), 4) == Some(address.e as nat),
        hex_segment(ipv6_hex(address), 5) == Some(address.f as nat),
        hex_segment(ipv6_hex(address), 6) == Some(address.g as nat),
        hex_segment(ipv6_hex(address), 7) == Some(address.h as nat),
{
    lemma_segment_reads_back(address.a);
    lemma_segment_reads_back(address.b);
    lemma_segment_reads_back(address.c);
    lemma_segment_reads_back(address.d);
    lemma_segment_reads_back(address.e);
    lemma_segment_reads_back(address.f);
    lemma_segment_reads_back(address.g);
    lemma_segment_reads_back(address.h);
    lemma_eight_groups(
        segment_hex(address.a),
        segment_hex(address.b),
        segment_hex(address.c),
        segment_hex(address.d),
        segment_hex(address.e),
        segment_hex(address.f),
        segment_hex(address.g),
        segment_hex(address.h),
    );
}

/// The notation of an IPv6 address is made of hexadecimal figures alone.
proof fn lemma_ipv6_figures(address: Ipv6Addr)
    ensures
        are_figures(ipv6_hex(address)),
{
    lemma_segment_figures(address.a);
    lemma_segment_figures(address.b);
    lemma_segment_figures(address.c);
    lemma_segment_figures(address.d);
    lemma_segment_figures(address.e);
    lemma_segment_figures(address.f);
    lemma_segment_figures(address.g);
    lemma_segment_figures(address.h);
    let two = segment_hex(address.a) + segment_hex(address.b);
    let three = two + segment_hex(address.c);
    let four = three + segment_hex(address.d);
    let five = four + segment_hex(address.e);
    let six = five + segment_hex(address.f);
    let seven = six + segment_hex(address.g);
    lemma_more_figures(segment_hex(address.a), segment_hex(address.b));
    lemma_more_figures(two, segment_hex(address.c));
    lemma_more_figures(three, segment_hex(address.d));
    lemma_more_figures(four, segment_hex(address.e));
    lemma_more_figures(five, segment_hex(address.f));
    lemma_more_figures(six, segment_hex(address.g));
    lemma_more_figures(seven, segment_hex(address.h));
}

proof fn lemma_more_figures(front: Seq<char>, back: Seq<char>)
    requires
        are_figures(front),
        are_figures(back),
    ensures
        are_figures(front + back),
{
    let text = front + back;
    assert forall|i: int| 0 <= i < text.len() implies digit(#[trigger] text[i], 16) is Some by {
        if i < front.len() {
            assert(text[i] == front[i]);
        } else {
            assert(text[i] == back[i - front.len()]);
        }
    }
}

/// A text of hexadecimal figures takes one byte for each of them.
proof fn lemma_figures_are_bytes(text: Seq<char>)
    requires
        are_figures(text),
    ensures
        byte_length(text) == text.len(),
{
    assert forall|i: int| 0 <= i < text.len() implies (text[i] as nat) < 128 by {
        assert(digit(text[i], 16) is Some);
    }
    assert(vstd::utf8::is_ascii_chars(text));
    vstd::utf8::is_ascii_chars_encode_utf8(text);
}

/// Every IPv6 address can be written in hexadecimal notation, and parsing gives it back.
pub proof fn law_ipv6_hex_reads_back(address: Ipv6Addr)
    ensures
        is_address_hex(ipv6_hex(address)),
        address_of_hex(ipv6_hex(address)) == Ok::<IpAddr, ParsingError>(IpAddr::V6(address)),
{
    let text = ipv6_hex(address);
    lemma_ipv6_groups(address);
    lemma_ipv6_figures(address);
    lemma_figures_are_bytes(text);
    assert forall|i: int| 0 <= i < text.len() / 4 implies hex_segment(text, i) is Some by {
        assert(i == 0 || i == 1 || i == 2 || i == 3 || i == 4 || i == 5 || i == 6 || i == 7);
    }
}

/// Every port can be written in hexadecimal notation, and parsing gives it back.
pub proof fn law_port_hex_reads_back(port: u16)
    ensures
        is_port_hex(segment_hex(port)),
        port_of_hex(segment_hex(port)) == Ok::<u32, ParsingError>(port as u32),
{
    lemma_segment_reads_back(port);
    lemma_segment_figures(port);
    lemma_figures_are_bytes(segment_hex(port));
}

/// An address of either version in hexadecimal notation.
pub open spec fn address_hex(address: IpAddr) -> Seq<char> {
    match address {
        IpAddr::V4(address) => ipv4_hex(address),
        IpAddr::V6(address) => ipv6_hex(address),
    }
}

/// Every address can be written in hexadecimal notation and is given back by parsing, and its
/// notation is made of hexadecimal figures alone.
pub proof fn law_address_hex_reads_back(address: IpAddr)
    ensures
        is_address_hex(address_hex(address)),
        address_of_hex(address_hex(address)) == Ok::<IpAddr, ParsingError>(address),
        are_figures(address_hex(address)),
{
    match address {
        IpAddr::V4(address) => {
            law_ipv4_hex_reads_back(address);
            lemma_ipv4_figures(address);
        },
        IpAddr::V6(address) => {
            law_ipv6_hex_reads_back(address);
            lemma_ipv6_figures(address);
        },
    }
}

proof fn lemma_octet_figures(octet: u8)
    ensures
        are_figures(octet_hex(octet)),
{
    lemma_figure(octet as int / 16);
    lemma_figure(octet as int % 16);
}

/// The notation of a segment, or of a port, is made of hexadecimal figures alone.
pub proof fn lemma_segment_figures(segment: u16)
    ensures
        are_figures(segment_hex(segment)),
{
    lemma_figure(segment as int / 4096);
    lemma_figure(segment as int / 256 % 16);
    lemma_figure(segment as int / 16 % 16);
    lemma_figure(segment as int % 16);
}

/// A text whose characters are ASCII takes one byte for each of them.
proof fn lemma_ascii_bytes(text: Seq<char>)
    requires
        forall|i: int| 0 <= i < text.len() ==> '\0' <= #[trigger] text[i] <= '\u{7f}',
    ensures
        byte_length(text) == text.len(),
{
    assert(vstd::utf8::is_ascii_chars(text));
    vstd::utf8::is_ascii_chars_encode_utf8(text);
}

/// Four groups of two characters, each of them a hexadecimal number in any notation, give the IPv4
/// address with those numbers, the last one first.
pub proof fn law_ipv4_groups_are_read(
    d: Seq<char>,
    c: Seq<char>,
    b: Seq<char>,
    a: Seq<char>,
    address: Ipv4Addr,
)
    requires
        d.len() == 2 && c.len() == 2 && b.len() == 2 && a.len() == 2,
        unsigned(a, 16, 0xff) == Some(address.a as nat),
        unsigned(b, 16, 0xff) == Some(address.b as nat),
        unsigned(c, 16, 0xff) == Some(address.c as nat),
        unsigned(d, 16, 0xff) == Some(address.d as nat),
    ensures
        is_address_hex(d + c + b + a),
        address_of_hex(d + c + b + a) == Ok::<IpAddr, ParsingError>(IpAddr::V4(address)),
        is_ipv4_hex(d + c + b + a),
        ipv4_of_hex(d + c + b + a) == address,
{
    let text = d + c + b + a;
    assert(text.subrange(0, 2) =~= d);
    assert(text.subrange(2, 4) =~= c);
    assert(text.subrange(4, 6) =~= b);
    assert(text.subrange(6, 8) =~= a);
    lemma_numbers_are_ascii(a, 16, 0xff);
    lemma_numbers_are_ascii(b, 16, 0xff);
    lemma_numbers_are_ascii(c, 16, 0xff);
    lemma_numbers_are_ascii(d, 16, 0xff);
    assert forall|i: int| 0 <= i < text.len() implies '\0' <= #[trigger] text[i] <= '\u{7f}' by {
        if i < 2 {
            assert(text[i] == d[i]);
        } else if i < 4 {
            assert(text[i] == c[i - 2]);
        } else if i < 6 {
            assert(text[i] == b[i - 4]);
        } else {
            assert(text[i] == a[i - 6]);
        }
    }
    lemma_ascii_bytes(text);
    assert forall|i: int| 0 <= i < text.len() / 2 implies hex_octet(text, i) is Some by {
        assert(i == 0 || i == 1 || i == 2 || i == 3);
    }
}

/// Eight groups of four characters, each of them a hexadecimal number in any notation, give the IPv6
/// address with those numbers, in their order.
pub proof fn law_ipv6_groups_are_read(
    a: Seq<char>,
    b: Seq<char>,
    c: Seq<char>,
    d: Seq<char>,
    e: Seq<char>,
    f: Seq<char>,
    g: Seq<char>,
    h: Seq<char>,
    address: Ipv6Addr,
)
    requires
        a.len() == 4 && b.len() == 4 && c.len() == 4 && d.len() == 4,
        e.len() == 4 && f.len() == 4 && g.len() == 4 && h.len() == 4,
        unsigned(a, 16, 0xffff) == Some(address.a as nat),
        unsigned(b, 16, 0xffff) == Some(address.b as nat),
        unsigned(c, 16, 0xffff) == Some(address.c as nat),
        unsigned(d, 16, 0xffff) == Some(address.d as nat),
        unsigned(e, 16, 0xffff) == Some(address.e as nat),
        unsigned(f, 16, 0xffff) == Some(address.f as nat),
        unsigned(g, 16, 0xffff) == Some(address.g as nat),
        unsigned(h, 16, 0xffff) == Some(address.h as nat),
    ensures
        is_address_hex(a + b + c + d + e + f + g + h),
        address_of_hex(a + b + c + d + e + f + g + h) == Ok::<IpAddr, ParsingError>(
            IpAddr::V6(address),
        ),
        is_ipv6_hex(a + b + c + d + e + f + g + h),
        ipv6_of_hex(a + b + c + d + e + f + g + h) == address,
{
    let text = a + b + c + d + e + f + g + h;
    lemma_eight_groups(a, b, c, d, e, f, g, h);
    assert forall|i: int| 0 <= i < 8 implies hex_segment(text, i) is Some by {
        assert(i == 0 || i == 1 || i == 2 || i == 3 || i == 4 || i == 5 || i == 6 || i == 7);
    }
    assert forall|i: int| 0 <= i < text.len() implies '\0' <= #[trigger] text[i] <= '\u{7f}' by {
        let group = text.subrange(4 * (i / 4), 4 * (i / 4) + 4);
        assert(hex_segment(text, i / 4) is Some);
        lemma_numbers_are_ascii(group, 16, 0xffff);
        assert(text[i] == group[i % 4]);
    }
    lemma_ascii_bytes(text);
}

/// A text of eight or more characters can be parsed as an IPv4 address exactly when it divides into
/// pairs that are hexadecimal numbers; the first four pairs give the address.
pub proof fn law_ipv4_pairs(text: Seq<char>)
    ensures
        is_ipv4_hex(text) <==> {
            &&& text.len() >= 8
            &&& text.len() % 2 == 0
            &&& forall|i: int|
                0 <= i < text.len() / 2 ==> unsigned(
                    #[trigger] text.subrange(2 * i, 2 * i + 2),
                    16,
                    0xff,
                ) is Some
        },
        is_ipv4_hex(text) ==> {
            &&& ipv4_of_hex(text).a == unsigned(text.subrange(6, 8), 16, 0xff)->0
            &&& ipv4_of_hex(text).b == unsigned(text.subrange(4, 6), 16, 0xff)->0
            &&& ipv4_of_hex(text).c == unsigned(text.subrange(2, 4), 16, 0xff)->0
            &&& ipv4_of_hex(text).d == unsigned(text.subrange(0, 2), 16, 0xff)->0
        },
{
    if is_ipv4_hex(text) {
        assert(hex_octet(text, 0) is Some && hex_octet(text, 1) is Some && hex_octet(text, 2)
            is Some && hex_octet(text, 3) is Some);
        assert forall|i: int| 0 <= i < text.len() / 2 implies unsigned(
            #[trigger] text.subrange(2 * i, 2 * i + 2),
            16,
            0xff,
        ) is Some by {
            assert(hex_octet(text, i) is Some);
        }
    }
}

/// A text of thirty-two or more characters can be parsed as an IPv6 address exactly when it divides
/// into groups of four that are hexadecimal numbers; the first eight groups give the address.
pub proof fn law_ipv6_groups_of_four(text: Seq<char>)
    ensures
        is_ipv6_hex(text) <==> {
            &&& text.len() >= 32
            &&& text.len() % 4 == 0
            &&& forall|i: int|
                0 <= i < text.len() / 4 ==> unsigned(
                    #[trigger] text.subrange(4 * i, 4 * i + 4),
                    16,
                    0xffff,
                ) is Some
        },
        is_ipv6_hex(text) ==> {
            &&& ipv6_of_hex(text).a == unsigned(text.subrange(0, 4), 16, 0xffff)->0
            &&& ipv6_of_hex(text).b == unsigned(text.subrange(4, 8), 16, 0xffff)->0
            &&& ipv6_of_hex(text).c == unsigned(text.subrange(8, 12), 16, 0xffff)->0
            &&& ipv6_of_hex(text).d == unsigned(text.subrange(12, 16), 16, 0xffff)->0
            &&& ipv6_of_hex(text).e == unsigned(text.subrange(16, 20), 16, 0xffff)->0
            &&& ipv6_of_hex(text).f == unsigned(text.subrange(20, 24), 16, 0xffff)->0
            &&& ipv6_of_hex(text).g == unsigned(text.subrange(24, 28), 16, 0xffff)->0
            &&& ipv6_of_hex(text).h == unsigned(text.subrange(28, 32), 16, 0xffff)->0
        },
{
    if is_ipv6_hex(text) {
        assert(hex_segment(text, 0) is Some && hex_segment(text, 1) is Some && hex_segment(text, 2)
            is Some && hex_segment(text, 3) is Some && hex_segment(text, 4) is Some && hex_segment(
            text,
            5,
        ) is Some && hex_segment(text, 6) is Some && hex_segment(text, 7) is Some);
        assert forall|i: int| 0 <= i < text.len() / 4 implies unsigned(
            #[trigger] text.subrange(4 * i, 4 * i + 4),
            16,
            0xffff,
        ) is Some by {
            assert(hex_segment(text, i) is Some);
        }
    }
}

/// A text is refused as an address exactly when it takes neither eight nor thirty-two bytes. One of
/// eight bytes is an IPv4 address or cannot be parsed, and one of thirty-two an IPv6 address.
pub proof fn law_address_lengths(text: Seq<char>)
    ensures
        ({
            let length = vstd::utf8::encode_utf8(text).len();
            &&& length != 8 && length != 32 ==> is_address_hex(text) && address_of_hex(text)
                == Err::<IpAddr, ParsingError>(ParsingError::UnparsableIpAddress)
            &&& length == 8 ==> (is_address_hex(text) <==> is_ipv4_hex(text)) && address_of_hex(
                text,
            ) == Ok::<IpAddr, ParsingError>(IpAddr::V4(ipv4_of_hex(text)))
            &&& length == 32 ==> (is_address_hex(text) <==> is_ipv6_hex(text)) && address_of_hex(
                text,
            ) == Ok::<IpAddr, ParsingError>(IpAddr::V6(ipv6_of_hex(text)))
        }),
{
}

/// Four characters that are a hexadecimal number in any notation give the port of that number. A
/// text is refused as a port exactly when it does not take four bytes, and one of four bytes that is
/// no number cannot be parsed.
pub proof fn law_ports_are_read(text: Seq<char>, port: u16)
    ensures
        text.len() == 4 && unsigned(text, 16, 0xffff) == Some(port as nat) ==> is_port_hex(text)
            && port_of_hex(text) == Ok::<u32, ParsingError>(port as u32),
        vstd::utf8::encode_utf8(text).len() != 4 ==> is_port_hex(text) && port_of_hex(text) == Err::<
            u32,
            ParsingError,
        >(ParsingError::UnparsablePort),
        vstd::utf8::encode_utf8(text).len() == 4 ==> port_of_hex(text) is Ok && (is_port_hex(text)
            <==> unsigned(text, 16, 0xffff) is Some),
{
    if text.len() == 4 && unsigned(text, 16, 0xffff) is Some {
        lemma_numbers_are_ascii(text, 16, 0xffff);
        lemma_ascii_bytes(text);
    }
}

} // verus!

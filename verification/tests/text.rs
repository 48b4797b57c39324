use scaphandre::hex::{
    parse_address_from_hex, parse_ipv4, parse_ipv6, parse_port_from_hex, read_address_hex,
    read_ipv4_hex, read_ipv6_hex, read_port_hex, ParsingError,
};
use scaphandre::address::{IpAddr, Ipv4Addr, Ipv6Addr};
use scaphandre::number::{read_decimal_i32, read_digit, read_digits, read_unsigned};
use scaphandre::text::{
    characters, pieces, starts_with, text_lines, trimmed, utf8_length, white_space,
};

fn string(chars: &[char]) -> String {
    chars.iter().collect()
}

fn samples() -> Vec<&'static str> {
    vec![
        "",
        " ",
        "\n",
        "\r\n",
        "\r",
        "a",
        "a\n",
        "a\r\n",
        "a\r",
        "a\n\nb",
        "a\r\n\r\nb\r",
        "\na",
        "a b  c",
        "  a  ",
        "\u{3000}a b\u{a0}\u{85}",
        "\u{2003}\u{feff}\u{2003}",
        ":",
        "0100007F:0277",
        "a:b:",
        "::",
        "h\u{e9}llo w\u{f6}rld",
        "\u{20ac}\u{1f600} \u{1f600}",
        "x\r\r\ny",
    ]
}

#[test]
fn white_space_is_that_of_unicode() {
    for code in 0..=0x10ffffu32 {
        if let Some(c) = char::from_u32(code) {
            assert_eq!(white_space(c), c.is_whitespace(), "{:x}", code);
        }
    }
}

#[test]
fn characters_are_those_of_the_string() {
    for text in samples() {
        assert_eq!(characters(text), text.chars().collect::<Vec<char>>());
    }
}

#[test]
fn trimming_takes_white_space_off_both_ends() {
    for text in samples() {
        assert_eq!(string(trimmed(&characters(text))), text.trim());
    }
    assert_eq!(string(trimmed(&characters("  a b \t"))), "a b");
}

#[test]
fn trimming_twice_changes_nothing() {
    for text in samples() {
        let chars = characters(text);
        let once = trimmed(&chars);
        assert_eq!(trimmed(once), once);
    }
}

#[test]
fn pieces_are_those_between_the_separators() {
    for text in samples() {
        for separator in [' ', ':', '\n', 'a'] {
            let chars = characters(text);
            let found: Vec<String> = pieces(&chars, separator).iter().map(|p| string(p)).collect();
            let expected: Vec<String> = text.split(separator).map(|p| p.to_string()).collect();
            assert_eq!(found, expected);
        }
    }
}

#[test]
fn joining_pieces_gives_the_text_back() {
    for text in samples() {
        let chars = characters(text);
        let found: Vec<String> = pieces(&chars, ' ').iter().map(|p| string(p)).collect();
        assert_eq!(found.join(" "), text);
    }
}

#[test]
fn splitting_gives_joined_pieces_back() {
    let parts = ["a", "", "bc", ""];
    let chars = characters(&parts.join(":"));
    let found: Vec<String> = pieces(&chars, ':').iter().map(|p| string(p)).collect();
    assert_eq!(found, parts);
}

#[test]
fn lines_end_with_a_line_feed() {
    for text in samples() {
        let chars = characters(text);
        let found: Vec<String> = text_lines(&chars).iter().map(|l| string(l)).collect();
        let expected: Vec<String> = text.lines().map(|l| l.to_string()).collect();
        assert_eq!(found, expected, "{:?}", text);
    }
}

#[test]
fn written_lines_are_read_back() {
    let chars = characters("one\n\nthree\n");
    let found: Vec<String> = text_lines(&chars).iter().map(|l| string(l)).collect();
    assert_eq!(found, ["one", "", "three"]);
}

#[test]
fn prefixes_are_recognised() {
    for text in samples() {
        for prefix in ["", "a", "a b", "01", " "] {
            assert_eq!(
                starts_with(&characters(text), &characters(prefix)),
                text.starts_with(prefix)
            );
        }
    }
}

#[test]
fn byte_lengths_are_those_of_utf8() {
    for text in samples() {
        assert_eq!(utf8_length(&characters(text)), text.len() as u128);
    }
    assert_eq!(utf8_length(&characters("a\u{e9}\u{20ac}\u{1f600}")), 10);
}

#[test]
fn digits_have_their_values() {
    for code in 0..0x300u32 {
        let c = char::from_u32(code).unwrap();
        for radix in [2, 10, 16, 36] {
            assert_eq!(read_digit(c, radix), c.to_digit(radix));
        }
    }
    assert_eq!(read_digit('F', 16), Some(15));
    assert_eq!(read_digit('g', 16), None);
}

#[test]
fn unsigned_numbers_are_read_like_octets() {
    let alphabet: Vec<char> = "019afAFgG+- \u{e9}".chars().collect();
    for first in alphabet.iter() {
        for second in alphabet.iter() {
            for third in alphabet.iter() {
                for text in [
                    format!("{}{}", first, second),
                    format!("{}{}{}", first, second, third),
                ] {
                    assert_eq!(
                        read_unsigned(&characters(&text), 16, 0xff),
                        u8::from_str_radix(&text, 16).ok().map(|value| value as u32),
                        "{:?}",
                        text
                    );
                }
            }
        }
    }
    assert_eq!(read_unsigned(&[], 16, 0xff), None);
}

#[test]
fn digits_beyond_the_bound_are_refused() {
    assert_eq!(read_digits(&characters("255"), 10, 255), Some(255));
    assert_eq!(read_digits(&characters("256"), 10, 255), None);
    assert_eq!(read_digits(&characters("0000000000000255"), 10, 255), Some(255));
    assert_eq!(read_digits(&characters("99999999999999999999999"), 10, u32::MAX), None);
    assert_eq!(read_digits(&characters("4294967295"), 10, u32::MAX), Some(u32::MAX));
    assert_eq!(read_digits(&characters("+1"), 10, 255), None);
}

#[test]
fn decimal_numbers_are_read_like_integers() {
    for text in [
        "", "0", "-0", "+0", "+", "-", "--1", "+-1", "-+1", "12345", "-12345", "2147483647",
        "2147483648", "-2147483648", "-2147483649", "00000000000000000007", "9999999999999999999",
        " 1", "1 ", "1a", "\u{661}", "+37312",
    ] {
        assert_eq!(read_decimal_i32(&characters(text)), text.parse::<i32>().ok(), "{:?}", text);
    }
}

#[test]
fn written_decimals_are_read_back() {
    for value in [0, 1, -1, 10, 37312, i32::MAX, i32::MIN] {
        assert_eq!(read_decimal_i32(&characters(&value.to_string())), Some(value));
    }
}

#[test]
fn written_ipv4_addresses_are_read_back() {
    for (a, b, c, d) in [(127, 0, 0, 1), (192, 168, 10, 254), (0, 0, 0, 0), (255, 255, 255, 255)] {
        let text = format!("{:02X}{:02X}{:02X}{:02X}", d, c, b, a);
        let address = Ipv4Addr::new(a, b, c, d);
        assert_eq!(parse_ipv4(&text), address);
        assert_eq!(parse_address_from_hex(&text), Ok(IpAddr::V4(address)));
        assert_eq!(parse_address_from_hex(&text.to_lowercase()), Ok(IpAddr::V4(address)));
    }
}

#[test]
fn written_ipv6_addresses_are_read_back() {
    let text = "20010DB8000000000000FF00004283FF";
    let address = Ipv6Addr::new(0x2001, 0xdb8, 0, 0, 0, 0xff00, 0x42, 0x83ff);
    assert_eq!(parse_ipv6(text), address);
    assert_eq!(parse_address_from_hex(text), Ok(IpAddr::V6(address)));
}

#[test]
fn written_ports_are_read_back() {
    for port in [0u16, 53, 443, 631, 53482, 65535] {
        assert_eq!(parse_port_from_hex(&format!("{:04X}", port)), Ok(port as u32));
        assert_eq!(parse_port_from_hex(&format!("{:04x}", port)), Ok(port as u32));
    }
    assert_eq!(parse_port_from_hex("+277"), Ok(631));
}

#[test]
fn addresses_and_ports_of_another_length_are_refused() {
    for text in ["", "0100007", "0100007F0", "000000000000000000000000010000", "127.0.0.1"] {
        assert_eq!(parse_address_from_hex(text), Err(ParsingError::UnparsableIpAddress));
    }
    for text in ["", "277", "00277", "\u{e9}\u{e9}\u{e9}"] {
        assert_eq!(parse_port_from_hex(text), Err(ParsingError::UnparsablePort));
    }
}

#[test]
fn longer_groups_of_an_address_are_passed_over() {
    assert_eq!(parse_ipv4("0100007FFF"), Ipv4Addr::new(127, 0, 0, 1));
}

#[test]
fn what_is_no_address_is_not_read() {
    assert_eq!(read_ipv4_hex(&characters("0100007G")), None);
    assert_eq!(read_ipv4_hex(&characters("0100007FF")), None);
    assert_eq!(read_ipv6_hex(&characters("0100007F")), None);
    assert_eq!(read_address_hex(&characters("\u{e9}\u{e9}\u{e9}\u{e9}")), None);
    assert_eq!(read_address_hex(&characters("01000")), None);
    assert_eq!(read_port_hex(&characters("02 7")), None);
    assert_eq!(read_port_hex(&characters("027")), None);
    assert_eq!(read_address_hex(&characters("+1+0+07F")), Some(IpAddr::V4(Ipv4Addr::new(127, 0, 0, 1))));
}

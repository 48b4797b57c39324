//! Numbers written in decimal or hexadecimal digits.
use vstd::prelude::*;

verus! {

/// The value of a character as a digit: the figures, then the letters of either case from ten on.
pub open spec fn digit_value(c: char) -> Option<nat> {
    if '0' <= c <= '9' {
        Some((c as nat - '0' as nat) as nat)
    } else if 'a' <= c <= 'z' {
        Some((c as nat - 'a' as nat + 10) as nat)
    } else if 'A' <= c <= 'Z' {
        Some((c as nat - 'A' as nat + 10) as nat)
    } else {
        None
    }
}

/// The value of a character as a digit in a radix, if it is one.
pub open spec fn digit(c: char, radix: nat) -> Option<nat> {
    match digit_value(c) {
        Some(value) => if value < radix {
            Some(value)
        } else {
            None
        },
        None => None,
    }
}

/// The number that one or more digits write, the most significant first.
pub open spec fn digits(text: Seq<char>, radix: nat) -> Option<nat>
    decreases text.len(),
{
    if text.len() == 0 {
        None
    } else if text.len() == 1 {
        digit(text[0], radix)
    } else {
        match (digits(text.drop_last(), radix), digit(text.last(), radix)) {
            (Some(front), Some(last)) => Some(front * radix + last),
            _ => None,
        }
    }
}

/// The number that digits write, unless it is greater than `max`.
pub open spec fn bounded_digits(text: Seq<char>, radix: nat, max: nat) -> Option<nat> {
    match digits(text, radix) {
        Some(value) => if value <= max {
            Some(value)
        } else {
            None
        },
        None => None,
    }
}

/// An unsigned number of at most `max`: digits, with a plus sign in front or none.
pub open spec fn unsigned(text: Seq<char>, radix: nat, max: nat) -> Option<nat> {
    if text.len() > 0 && text[0] == '+' {
        bounded_digits(text.drop_first(), radix, max)
    } else {
        bounded_digits(text, radix, max)
    }
}

/// A decimal 32-bit number: digits, with a plus or minus sign in front or none.
pub open spec fn decimal_i32(text: Seq<char>) -> Option<int> {
    if text.len() > 0 && text[0] == '-' {
        match bounded_digits(text.drop_first(), 10, 0x8000_0000) {
            Some(value) => Some(-(value as int)),
            None => None,
        }
    } else {
        match unsigned(text, 10, 0x7fff_ffff) {
            Some(value) => Some(value as int),
            None => None,
        }
    }
}

/// Reads a digit.
pub fn read_digit(c: char, radix: u32) -> (value: Option<u32>)
    ensures
        match value {
            Some(value) => digit(c, radix as nat) == Some(value as nat),
            None => digit(c, radix as nat) is None,
        },
{
    let code: u32 = c as u32;
    let value: u32 = if '0' <= c && c <= '9' {
        code - 48
    } else if 'a' <= c && c <= 'z' {
        code - 87
    } else if 'A' <= c && c <= 'Z' {
        code - 55
    } else {
        return None;
    };
    if value < radix {
        Some(value)
    } else {
        None
    }
}

/// A number that is out of bounds stays so when digits are added behind it.
proof fn lemma_longer_is_greater(text: Seq<char>, length: int, radix: nat)
    requires
        1 <= length <= text.len(),
        radix >= 1,
        digits(text, radix) is Some,
    ensures
        digits(text.take(length), radix) is Some,
        digits(text.take(length), radix)->0 <= digits(text, radix)->0,
    decreases text.len(),
{
    if length == text.len() {
        assert(text.take(length) =~= text);
    } else {
        let front = text.drop_last();
        lemma_longer_is_greater(front, length, radix);
        assert(front.take(length) =~= text.take(length));
        let value = digits(front, radix)->0;
        assert(value <= value * radix) by (nonlinear_arith)
            requires
                radix >= 1,
        ;
    }
}

/// Reads digits, unless the number is greater than `max`.
pub fn read_digits(text: &[char], radix: u32, max: u32) -> (value: Option<u32>)
    requires
        1 <= radix <= 36,
    ensures
        match value {
            Some(value) => bounded_digits(text@, radix as nat, max as nat) == Some(value as nat),
            None => bounded_digits(text@, radix as nat, max as nat) is None,
        },
{
    if text.len() == 0 {
        return None;
    }
    let mut value: u64 = 0;
    let mut i: usize = 0;
    while i < text.len()
        invariant
            1 <= radix <= 36,
            i <= text@.len(),
            text@.len() >= 1,
            i == 0 ==> value == 0,
            i > 0 ==> digits(text@.take(i as int), radix as nat) == Some(value as nat),
            value <= max,
        decreases text@.len() - i,
    {
        let ghost grown = text@.take(i + 1);
        assert(grown.drop_last() =~= text@.take(i as int));
        assert(grown.last() == text@[i as int]);
        let figure = read_digit(text[i], radix);
        match figure {
            None => {
                proof {
                    if digits(text@, radix as nat) is Some {
                        lemma_longer_is_greater(text@, i + 1, radix as nat);
                    }
                }
                return None;
            },
            Some(figure) => {
                assert(value * radix <= 0xffff_ffff * 36) by (nonlinear_arith)
                    requires
                        value <= 0xffff_ffff,
                        radix <= 36,
                ;
                let ghost front = value as nat;
                value = value * (radix as u64) + (figure as u64);
                proof {
                    let base = radix as nat;
                    assert(value as nat == front * base + figure as nat);
                    if i == 0 {
                        assert(grown.len() == 1);
                        assert(digits(grown, base) == digit(grown[0], base));
                        assert(front * base == 0);
                    } else {
                        assert(digits(grown.drop_last(), base) == Some(front));
                        assert(digits(grown, base) == Some(front * base + figure as nat));
                    }
                }
            },
        }
        assert(digits(grown, radix as nat) == Some(value as nat));
        if value > max as u64 {
            proof {
                if digits(text@, radix as nat) is Some {
                    lemma_longer_is_greater(text@, i + 1, radix as nat);
                }
            }
            return None;
        }
        i += 1;
    }
    assert(text@.take(i as int) =~= text@);
    Some(value as u32)
}

/// Reads an unsigned number of at most `max`.
pub fn read_unsigned(text: &[char], radix: u32, max: u32) -> (value: Option<u32>)
    requires
        1 <= radix <= 36,
    ensures
        match value {
            Some(value) => unsigned(text@, radix as nat, max as nat) == Some(value as nat),
            None => unsigned(text@, radix as nat, max as nat) is None,
        },
{
    if text.len() > 0 && text[0] == '+' {
        let rest = vstd::slice::slice_subrange(text, 1, text.len());
        assert(rest@ =~= text@.drop_first());
        read_digits(rest, radix, max)
    } else {
        read_digits(text, radix, max)
    }
}

/// Reads a decimal 32-bit number.
pub fn read_decimal_i32(text: &[char]) -> (value: Option<i32>)
    ensures
        match value {
            Some(value) => decimal_i32(text@) == Some(value as int),
            None => decimal_i32(text@) is None,
        },
{
    if text.len() > 0 && text[0] == '-' {
        let rest = vstd::slice::slice_subrange(text, 1, text.len());
        assert(rest@ =~= text@.drop_first());
        match read_digits(rest, 10, 0x8000_0000) {
            Some(value) => Some((0 - (value as i64)) as i32),
            None => None,
        }
    } else {
        match read_unsigned(text, 10, 0x7fff_ffff) {
            Some(value) => Some(value as i32),
            None => None,
        }
    }
}

/// A number in decimal figures.
pub open spec fn decimal(value: nat) -> Seq<char>
    decreases value,
{
    let figure = ('0' as int + value as int % 10) as char;
    if value < 10 {
        seq![figure]
    } else {
        decimal(value / 10).push(figure)
    }
}

/// A number in decimal figures, with a minus sign in front if it is negative.
pub open spec fn signed_decimal(value: int) -> Seq<char> {
    if value < 0 {
        seq!['-'] + decimal((-value) as nat)
    } else {
        decimal(value as nat)
    }
}

/// Decimal figures write the number that they were made from.
proof fn lemma_decimal(value: nat)
    ensures
        decimal(value).len() >= 1,
        digits(decimal(value), 10) == Some(value),
        forall|i: int|
            0 <= i < decimal(value).len() ==> '0' <= #[trigger] decimal(value)[i] <= '9',
    decreases value,
{
    let text = decimal(value);
    if value >= 10 {
        let front = decimal(value / 10);
        lemma_decimal(value / 10);
        assert(text.drop_last() =~= front);
        assert forall|i: int| 0 <= i < text.len() implies '0' <= #[trigger] text[i] <= '9' by {
            if i < front.len() {
                assert(text[i] == front[i]);
            }
        }
    }
}

/// Every 32-bit number can be written in decimal figures, and parsing gives it back.
pub proof fn law_decimal_reads_back(value: i32)
    ensures
        decimal_i32(signed_decimal(value as int)) == Some(value as int),
        forall|i: int|
            0 <= i < signed_decimal(value as int).len() ==> {
                ||| '0' <= #[trigger] signed_decimal(value as int)[i] <= '9'
                ||| signed_decimal(value as int)[i] == '-'
            },
{
    let text = signed_decimal(value as int);
    if value < 0 {
        lemma_decimal((-value) as nat);
        assert(text.drop_first() =~= decimal((-value) as nat));
        assert forall|i: int| 0 < i < text.len() implies '0' <= #[trigger] text[i] <= '9' by {
            assert(text[i] == decimal((-value) as nat)[i - 1]);
        }
    } else {
        lemma_decimal(value as nat);
        assert('0' <= text[0] <= '9');
    }
}

/// A character is a digit by its code: the figures count from 0 and the letters of either case from
/// 10, as far as the radix goes.
pub proof fn law_one_digit(c: char, radix: nat)
    ensures
        48 <= c as int <= 57 && c as int - 48 < radix ==> digits(seq![c], radix) == Some(
            (c as int - 48) as nat,
        ),
        97 <= c as int <= 122 && c as int - 87 < radix ==> digits(seq![c], radix) == Some(
            (c as int - 87) as nat,
        ),
        65 <= c as int <= 90 && c as int - 55 < radix ==> digits(seq![c], radix) == Some(
            (c as int - 55) as nat,
        ),
        !(48 <= c as int <= 57 && c as int - 48 < radix) && !(97 <= c as int <= 122 && c as int - 87
            < radix) && !(65 <= c as int <= 90 && c as int - 55 < radix) ==> digits(
            seq![c],
            radix,
        ) is None,
{
}

/// One more digit multiplies a number by the radix and adds its own value; without a digit on either
/// side there is no number.
pub proof fn law_one_more_digit(text: Seq<char>, c: char, radix: nat)
    requires
        text.len() >= 1,
    ensures
        digits(text, radix) is Some && digits(seq![c], radix) is Some ==> digits(
            text.push(c),
            radix,
        ) == Some(digits(text, radix)->0 * radix + digits(seq![c], radix)->0),
        digits(text, radix) is None || digits(seq![c], radix) is None ==> digits(
            text.push(c),
            radix,
        ) is None,
        digits(Seq::empty(), radix) is None,
{
    assert(text.push(c).drop_last() =~= text);
}

/// An unsigned number is that of its digits, whether there is a plus sign in front or not, as long
/// as it is no greater than the greatest allowed.
pub proof fn law_plus_signs(text: Seq<char>, radix: nat, max: nat, value: nat)
    ensures
        unsigned(seq!['+'] + text, radix, max) == Some(value) <==> digits(text, radix) == Some(
            value,
        ) && value <= max,
        text.len() == 0 || text[0] != '+' ==> (unsigned(text, radix, max) == Some(value)
            <==> digits(text, radix) == Some(value) && value <= max),
{
    assert((seq!['+'] + text).drop_first() =~= text);
}

/// A decimal number is that of its digits, and its opposite if there is a minus sign in front, as
/// long as 32 bits hold it.
pub proof fn law_decimal_signs(text: Seq<char>, value: int)
    ensures
        decimal_i32(seq!['-'] + text) == Some(value) <==> digits(text, 10) == Some((-value) as nat)
            && -0x8000_0000 <= value <= 0,
        decimal_i32(seq!['+'] + text) == Some(value) <==> digits(text, 10) == Some(value as nat)
            && 0 <= value <= 0x7fff_ffff,
        text.len() == 0 || text[0] != '+' && text[0] != '-' ==> (decimal_i32(text) == Some(value)
            <==> digits(text, 10) == Some(value as nat) && 0 <= value <= 0x7fff_ffff),
{
    assert((seq!['-'] + text).drop_first() =~= text);
    assert((seq!['+'] + text).drop_first() =~= text);
}

/// What can be read as a number takes one byte for each of its characters.
pub proof fn lemma_numbers_are_ascii(text: Seq<char>, radix: nat, max: nat)
    requires
        unsigned(text, radix, max) is Some,
    ensures
        forall|i: int| 0 <= i < text.len() ==> '\0' <= #[trigger] text[i] <= '\u{7f}',
{
    if text[0] == '+' {
        let rest = text.drop_first();
        lemma_digits_are_ascii(rest, radix);
        assert forall|i: int| 0 <= i < text.len() implies '\0' <= #[trigger] text[i] <= '\u{7f}' by {
            if i > 0 {
                assert(text[i] == rest[i - 1]);
            }
        }
    } else {
        lemma_digits_are_ascii(text, radix);
    }
}

proof fn lemma_digits_are_ascii(text: Seq<char>, radix: nat)
    requires
        digits(text, radix) is Some,
    ensures
        forall|i: int| 0 <= i < text.len() ==> '\0' <= #[trigger] text[i] <= '\u{7f}',
    decreases text.len(),
{
    if text.len() > 1 {
        let front = text.drop_last();
        lemma_digits_are_ascii(front, radix);
        assert forall|i: int| 0 <= i < text.len() implies '\0' <= #[trigger] text[i] <= '\u{7f}' by {
            if i < front.len() {
                assert(text[i] == front[i]);
            }
        }
    }
}

} // verus!

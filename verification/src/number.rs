//! Integers as text: decimal digits, digit groups, zero padding, hexadecimal, and back.

use crate::text;
use vstd::prelude::*;
use vstd::string::*;

verus! {

/// The character of one decimal digit.
pub open spec fn digit_char(digit: nat) -> char {
    (48 + digit) as char
}

/// Whether a character is one of `0` to `9`.
pub open spec fn is_digit(ch: char) -> bool {
    '0' <= ch <= '9'
}

/// The shortest decimal text of a number.
pub open spec fn decimal(value: nat) -> Seq<char>
    decreases value,
{
    if value < 10 {
        seq![digit_char(value)]
    } else {
        decimal(value / 10).push(digit_char(value % 10))
    }
}

/// The decimal text of an integer, with a minus sign where it is negative.
pub open spec fn integer_text(value: int) -> Seq<char> {
    if value < 0 {
        "-"@ + decimal((-value) as nat)
    } else {
        decimal(value as nat)
    }
}

/// The decimal text of a number, at least `width` characters wide, with zeros in front.
pub open spec fn zero_padded(value: nat, width: nat) -> Seq<char> {
    text::padded_left(decimal(value), width, '0')
}

/// The decimal text of an integer, at least `width` characters wide with its sign, with zeros
/// between the sign and the digits.
pub open spec fn zero_padded_integer(value: int, width: nat) -> Seq<char> {
    if value < 0 {
        "-"@ + zero_padded((-value) as nat, if width == 0 { 0 } else { (width - 1) as nat })
    } else {
        zero_padded(value as nat, width)
    }
}

/// `digits` with a comma in front of every group of three, counted from the end.
pub open spec fn grouped(digits: Seq<char>) -> Seq<char>
    decreases digits.len(),
{
    if digits.len() <= 3 {
        digits
    } else {
        grouped(digits.take(digits.len() - 3)) + ","@ + digits.skip(digits.len() - 3)
    }
}

/// The decimal text of an integer with its digits in groups of three.
pub open spec fn grouped_integer(value: int) -> Seq<char> {
    if value < 0 {
        "-"@ + grouped(decimal((-value) as nat))
    } else {
        grouped(decimal(value as nat))
    }
}

/// Ten to the power of `exponent`.
pub open spec fn power_of_ten(exponent: nat) -> nat
    decreases exponent,
{
    if exponent == 0 {
        1
    } else {
        10 * power_of_ten((exponent - 1) as nat)
    }
}

/// The number that a sequence of decimal digits denotes.
pub open spec fn decimal_value(digits: Seq<char>) -> nat
    decreases digits.len(),
{
    if digits.len() == 0 {
        0
    } else {
        decimal_value(digits.drop_last()) * 10 + (digits.last() as nat - 48) as nat
    }
}

/// Whether a text is made of decimal digits alone, with at least one of them.
pub open spec fn all_digits(text: Seq<char>) -> bool {
    text.len() > 0 && forall|i: int| 0 <= i < text.len() ==> is_digit(#[trigger] text[i])
}

/// The characters of a text that come after its sign.
pub open spec fn unsigned_part(text: Seq<char>) -> Seq<char> {
    if text.len() > 0 && (text[0] == '-' || text[0] == '+') {
        text.skip(1)
    } else {
        text
    }
}

/// The integer that a text denotes: digits, with one optional sign in front.
pub open spec fn integer_value(text: Seq<char>) -> Option<int> {
    if !all_digits(unsigned_part(text)) {
        None
    } else if text[0] == '-' {
        Some(-(decimal_value(unsigned_part(text)) as int))
    } else {
        Some(decimal_value(unsigned_part(text)) as int)
    }
}

/// The number that a text denotes: digits, with one optional plus sign in front.
pub open spec fn natural_value(text: Seq<char>) -> Option<int> {
    if text.len() > 0 && text[0] == '-' {
        None
    } else {
        integer_value(text)
    }
}

/// The hexadecimal digit of a number below sixteen.
pub open spec fn hex_char(nibble: nat) -> char {
    if nibble < 10 {
        (48 + nibble) as char
    } else {
        (87 + nibble) as char
    }
}

/// The two hexadecimal digits of a byte.
pub open spec fn hex_byte(byte: u8) -> Seq<char> {
    seq![hex_char((byte / 16) as nat), hex_char((byte % 16) as nat)]
}

/// Two hexadecimal digits for each byte, in order.
pub open spec fn hex_text(bytes: Seq<u8>) -> Seq<char>
    decreases bytes.len(),
{
    if bytes.len() == 0 {
        Seq::empty()
    } else {
        hex_text(bytes.drop_last()) + hex_byte(bytes.last())
    }
}

/// The number that a hexadecimal digit stands for, in capital letters or small ones.
pub open spec fn hex_digit_value(ch: char) -> Option<nat> {
    if '0' <= ch <= '9' {
        Some((ch as int - 48) as nat)
    } else if 'a' <= ch <= 'f' {
        Some((ch as int - 87) as nat)
    } else if 'A' <= ch <= 'F' {
        Some((ch as int - 55) as nat)
    } else {
        None
    }
}

/// The number that hexadecimal digits stand for.
pub open spec fn hex_value(digits: Seq<char>) -> Option<nat>
    decreases digits.len(),
{
    if digits.len() == 0 {
        Some(0)
    } else {
        match (hex_value(digits.drop_last()), hex_digit_value(digits.last())) {
            (Some(high), Some(low)) => Some(high * 16 + low),
            _ => None,
        }
    }
}

/// The character whose number hexadecimal digits stand for, if there is one.
pub open spec fn scalar_value(digits: Seq<char>) -> Option<char> {
    match hex_value(digits) {
        Some(number) => if number < 0xD800 || 0xE000 <= number < 0x11_0000 {
            Some(number as char)
        } else {
            None
        },
        None => None,
    }
}

/// Two zeros and the two hexadecimal digits of a byte stand for the character of that number.
pub proof fn hex_byte_reads_back(byte: u8)
    ensures
        scalar_value(seq!['0', '0'] + hex_byte(byte)) == Some(byte as char),
{
    let digits = seq!['0', '0'] + hex_byte(byte);
    let three = digits.drop_last();
    let two = three.drop_last();
    let one = two.drop_last();
    assert(one.drop_last() == Seq::<char>::empty());
    assert(hex_value(Seq::<char>::empty()) == Some(0nat));
    assert(one.len() == 1 && one.last() == '0');
    assert(two.last() == '0');
    assert(hex_value(one) == Some(0nat));
    assert(hex_value(two) == Some(0nat));
    assert(three.last() == hex_char((byte / 16) as nat));
    assert(digits.last() == hex_char((byte % 16) as nat));
    assert(hex_value(three) == Some((byte / 16) as nat));
    assert(hex_value(digits) == Some(byte as nat));
}

/// A decimal text is made of digits, and has at least one.
pub proof fn decimal_is_digits(value: nat)
    ensures
        all_digits(decimal(value)),
    decreases value,
{
    if value >= 10 {
        decimal_is_digits(value / 10);
    }
}

/// Reading the decimal text of a number gives the number back.
pub proof fn decimal_reads_back(value: nat)
    ensures
        decimal_value(decimal(value)) == value,
    decreases value,
{
    reveal_with_fuel(decimal_value, 2);
    if value >= 10 {
        decimal_reads_back(value / 10);
        assert(decimal(value).drop_last() == decimal(value / 10));
    } else {
        assert(decimal(value).drop_last() == Seq::<char>::empty());
    }
}

/// Different integers have different texts: reading the text of an integer gives it back.
pub proof fn integer_reads_back(value: int)
    ensures
        integer_value(integer_text(value)) == Some(value),
{
    reveal_strlit("-");
    let magnitude: nat = if value < 0 { (-value) as nat } else { value as nat };
    decimal_is_digits(magnitude);
    decimal_reads_back(magnitude);
    if value < 0 {
        assert(integer_text(value).skip(1) == decimal(magnitude));
    } else {
        assert(is_digit(decimal(magnitude)[0]));
    }
}

/// A number below a power of ten has at most as many digits as the exponent, and one at least.
pub proof fn decimal_length(value: nat, exponent: nat)
    requires
        exponent > 0,
        value < power_of_ten(exponent),
    ensures
        1 <= decimal(value).len() <= exponent,
    decreases exponent,
{
    reveal_with_fuel(power_of_ten, 2);
    if value >= 10 {
        decimal_length(value / 10, (exponent - 1) as nat);
    }
}

/// Powers of ten are positive.
pub proof fn power_is_positive(exponent: nat)
    ensures
        power_of_ten(exponent) > 0,
    decreases exponent,
{
    if exponent > 0 {
        power_is_positive((exponent - 1) as nat);
    }
}

/// Exponents add up.
pub proof fn power_splits(first: nat, second: nat)
    ensures
        power_of_ten(first) * power_of_ten(second) == power_of_ten(
            first + second,
        ),
    decreases first,
{
    let a = power_of_ten(first);
    let b = power_of_ten(second);
    if first > 0 {
        let p = power_of_ten((first - 1) as nat);
        power_splits((first - 1) as nat, second);
        assert(a * b == 10 * (p * b)) by (nonlinear_arith)
            requires
                a == 10 * p,
        ;
    } else {
        assert(a * b == b) by (nonlinear_arith)
            requires
                a == 1,
        ;
    }
}

/// Grouping only inserts commas: taking them out again gives the digits back.
pub proof fn grouping_keeps_digits(digits: Seq<char>)
    requires
        forall|i: int| 0 <= i < digits.len() ==> is_digit(#[trigger] digits[i]),
    ensures
        grouped(digits).filter(|ch: char| ch != ',') == digits,
    decreases digits.len(),
{
    let keep = |ch: char| ch != ',';
    reveal_strlit(",");
    if digits.len() <= 3 {
        keeping_all(digits, keep);
    } else {
        let head = digits.take(digits.len() - 3);
        let tail = digits.skip(digits.len() - 3);
        grouping_keeps_digits(head);
        keeping_all(tail, keep);
        assert(","@ == seq![',']);
        assert(seq![','].filter(keep) == Seq::<char>::empty()) by {
            reveal_with_fuel(Seq::filter, 2);
            assert(seq![','].drop_last() == Seq::<char>::empty());
        }
        Seq::filter_distributes_over_add(grouped(head), ","@, keep);
        Seq::filter_distributes_over_add(grouped(head) + ","@, tail, keep);
        assert(head + Seq::<char>::empty() == head);
        assert(head + tail == digits);
    }
}

proof fn keeping_all(text: Seq<char>, keep: spec_fn(char) -> bool)
    requires
        forall|i: int| 0 <= i < text.len() ==> keep(#[trigger] text[i]),
    ensures
        text.filter(keep) == text,
    decreases text.len(),
{
    reveal(Seq::filter);
    if text.len() > 0 {
        keeping_all(text.drop_last(), keep);
        assert(text.drop_last().push(text.last()) == text);
    }
}

/// The length of a grouped text: one comma for every three digits after the first.
pub proof fn grouped_length(digits: Seq<char>)
    requires
        digits.len() > 0,
    ensures
        grouped(digits).len() == digits.len() + (digits.len() - 1) / 3,
    decreases digits.len(),
{
    reveal_strlit(",");
    if digits.len() > 3 {
        grouped_length(digits.take(digits.len() - 3));
    }
}

/// The distance of an integer from zero.
pub fn magnitude(value: i128) -> (result: u128)
    ensures
        result == if value < 0 { -(value as int) } else { value as int },
{
    if value < 0 {
        ((-(value + 1)) as u128) + 1
    } else {
        value as u128
    }
}

/// Appends the decimal text of a number.
pub fn push_decimal(out: &mut String, value: u128)
    ensures
        final(out)@ == old(out)@ + decimal(value as nat),
    decreases value,
{
    let ghost before = out@;
    if value >= 10 {
        push_decimal(out, value / 10);
    }
    let digit: u8 = (value % 10) as u8;
    out.push((48 + digit) as char);
    assert(out@ == before + decimal(value as nat));
}

/// Appends the decimal text of an integer.
pub fn push_integer(out: &mut String, value: i128)
    ensures
        final(out)@ == old(out)@ + integer_text(value as int),
{
    let ghost before = out@;
    if value < 0 {
        out.append("-");
    }
    push_decimal(out, magnitude(value));
    assert(out@ == before + integer_text(value as int));
}

/// The decimal text of a number.
pub fn decimal_string(value: u128) -> (result: String)
    ensures
        result@ == decimal(value as nat),
{
    let mut result: String = String::new();
    push_decimal(&mut result, value);
    assert(result@ == decimal(value as nat));
    result
}

/// The decimal text of an integer.
pub fn integer_string(value: i128) -> (result: String)
    ensures
        result@ == integer_text(value as int),
{
    let mut result: String = String::new();
    push_integer(&mut result, value);
    assert(result@ == integer_text(value as int));
    result
}

/// Appends the decimal text of a number with zeros in front of it up to `width`.
pub fn push_zero_padded(out: &mut String, value: u128, width: usize)
    ensures
        final(out)@ == old(out)@ + zero_padded(value as nat, width as nat),
{
    let digits: String = decimal_string(value);
    text::push_padded_left(out, digits.as_str(), width, '0');
}

/// Appends the decimal text of an integer with zeros between its sign and its digits.
pub fn push_zero_padded_integer(out: &mut String, value: i128, width: usize)
    ensures
        final(out)@ == old(out)@ + zero_padded_integer(value as int, width as nat),
{
    let ghost before = out@;
    if value < 0 {
        out.append("-");
        let rest: usize = if width == 0 { 0 } else { width - 1 };
        push_zero_padded(out, magnitude(value), rest);
    } else {
        push_zero_padded(out, magnitude(value), width);
    }
    assert(out@ == before + zero_padded_integer(value as int, width as nat));
}

/// Appends the first `length` characters in groups of three.
pub fn push_grouped(out: &mut String, digits: &Vec<char>, length: usize)
    requires
        length <= digits@.len(),
    ensures
        final(out)@ == old(out)@ + grouped(digits@.take(length as int)),
    decreases length,
{
    let ghost before = out@;
    if length > 3 {
        push_grouped(out, digits, length - 3);
        out.append(",");
        text::push_chars(out, digits, length - 3, length);
        proof {
            let shown = digits@.take(length as int);
            assert(shown.take(length - 3) == digits@.take(length - 3));
            assert(shown.skip(length - 3) == digits@.subrange(length - 3, length as int));
            assert(out@ == before + grouped(shown));
        }
    } else {
        text::push_chars(out, digits, 0, length);
        assert(digits@.subrange(0, length as int) == digits@.take(length as int));
    }
}

/// The decimal text of a number with its digits in groups of three.
pub fn comma_u128(value: u128) -> (result: String)
    ensures
        result@ == grouped_integer(value as int),
{
    let digits: Vec<char> = text::chars_of(decimal_string(value).as_str());
    let mut result: String = String::new();
    push_grouped(&mut result, &digits, digits.len());
    assert(digits@.take(digits@.len() as int) == decimal(value as nat));
    assert(result@ == grouped(decimal(value as nat)));
    result
}

/// The decimal text of a number with its digits in groups of three.
pub fn comma_u64(value: u64) -> (result: String)
    ensures
        result@ == grouped_integer(value as int),
{
    comma_u128(value as u128)
}

/// The decimal text of a number with its digits in groups of three.
pub fn comma_usize(value: usize) -> (result: String)
    ensures
        result@ == grouped_integer(value as int),
{
    comma_u64(value as u64)
}

/// The decimal text of an integer with its digits in groups of three.
pub fn comma_i128(value: i128) -> (result: String)
    ensures
        result@ == grouped_integer(value as int),
{
    if value < 0 {
        let mut result: String = "-".to_owned();
        let digits: String = comma_u128(magnitude(value));
        result.append(digits.as_str());
        result
    } else {
        comma_u128(value as u128)
    }
}

/// Appends the two hexadecimal digits of a byte.
pub fn push_hex_byte(out: &mut String, byte: u8)
    ensures
        final(out)@ == old(out)@ + hex_byte(byte),
{
    let ghost before = out@;
    let high: u8 = byte / 16;
    let low: u8 = byte % 16;
    out.push(if high < 10 { (48 + high) as char } else { (87 + high) as char });
    out.push(if low < 10 { (48 + low) as char } else { (87 + low) as char });
    assert(out@ == before + hex_byte(byte));
}

/// Appends two hexadecimal digits for each byte.
pub fn push_hex(out: &mut String, bytes: &[u8])
    ensures
        final(out)@ == old(out)@ + hex_text(bytes@),
{
    let ghost before = out@;
    let mut i: usize = 0;
    assert(bytes@.take(0) == Seq::<u8>::empty());
    assert(out@ == before + hex_text(bytes@.take(0)));
    while i < bytes.len()
        invariant
            i <= bytes@.len(),
            out@ == before + hex_text(bytes@.take(i as int)),
        decreases bytes@.len() - i,
    {
        push_hex_byte(out, bytes[i]);
        i = i + 1;
        assert(bytes@.take(i as int).drop_last() == bytes@.take(i - 1));
        assert(out@ == before + hex_text(bytes@.take(i as int)));
    }
    assert(bytes@.take(bytes@.len() as int) == bytes@);
}

/// Ten to the power of `exponent`, where it fits.
pub fn ten_to(exponent: u8) -> (result: u128)
    requires
        exponent <= 38,
    ensures
        result == power_of_ten(exponent as nat),
        result > 0,
{
    let mut result: u128 = 1;
    let mut i: u8 = 0;
    while i < exponent
        invariant
            i <= exponent <= 38,
            result == power_of_ten(i as nat),
        decreases exponent - i,
    {
        i = i + 1;
        proof {
            power_of_ten_fits(i as nat);
        }
        result = 10 * result;
    }
    proof {
        power_of_ten_fits(exponent as nat);
    }
    result
}

proof fn power_of_ten_fits(exponent: nat)
    requires
        exponent <= 38,
    ensures
        0 < power_of_ten(exponent) <= u128::MAX,
    decreases 38 - exponent,
{
    power_is_positive(exponent);
    if exponent < 38 {
        power_of_ten_fits(exponent + 1);
    } else {
        assert(power_of_ten(38) == 100_000_000_000_000_000_000_000_000_000_000_000_000nat) by {
            reveal_with_fuel(power_of_ten, 39);
        }
    }
}

/// Reads `text[from..to]` as a number.
///
/// `None` where it is empty, holds anything but decimal digits, or denotes more than `u128::MAX`.
pub fn read_digits(text: &Vec<char>, from: usize) -> (result: Option<u128>)
    requires
        from <= text@.len(),
    ensures
        match result {
            Some(value) => all_digits(text@.skip(from as int)) && value == decimal_value(
                text@.skip(from as int),
            ),
            None => !all_digits(text@.skip(from as int)) || decimal_value(text@.skip(from as int))
                > u128::MAX,
        },
{
    let ghost digits = text@.skip(from as int);
    if from == text.len() {
        return None;
    }
    let mut value: u128 = 0;
    let mut i: usize = from;
    assert(digits.take(0) == Seq::<char>::empty());
    while i < text.len()
        invariant
            from <= i <= text@.len(),
            digits == text@.skip(from as int),
            value == decimal_value(digits.take(i - from)),
            forall|j: int| 0 <= j < i - from ==> is_digit(#[trigger] digits[j]),
        decreases text@.len() - i,
    {
        let ch: char = text[i];
        assert(digits[i - from] == ch);
        if !('0' <= ch && ch <= '9') {
            return None;
        }
        let digit: u128 = (ch as u32 - 48) as u128;
        assert(digits.take(i - from + 1).drop_last() == digits.take(i - from));
        assert(decimal_value(digits.take(i - from + 1)) == value * 10 + digit);
        let scaled: Option<u128> = value.checked_mul(10);
        let next: Option<u128> = match scaled {
            Some(scaled) => scaled.checked_add(digit),
            None => None,
        };
        match next {
            Some(next) => {
                value = next;
            },
            None => {
                proof {
                    decimal_value_grows(digits, i - from + 1);
                    if all_digits(digits) {
                        assert(digits.take(digits.len() as int) == digits);
                    }
                }
                return None;
            },
        }
        i = i + 1;
    }
    assert(digits.take(i - from) == digits);
    Some(value)
}

/// A number text with its digits in front of the decimal point in groups of three, as far as they
/// are digits that denote a number of at most 128 bits; without a decimal point that nothing
/// follows.
pub open spec fn grouped_decimal(rendered: Seq<char>) -> Seq<char> {
    let sign = if rendered.len() > 0 && rendered[0] == '-' {
        1int
    } else {
        0
    };
    let body = rendered.skip(sign);
    let point = text::first_of(body, '.', '.');
    let whole = body.take(point);
    let shown = match natural_value(whole) {
        Some(value) => if value <= u128::MAX {
            grouped_integer(value)
        } else {
            whole
        },
        None => whole,
    };
    rendered.take(sign) + shown + if point + 1 < body.len() {
        body.skip(point)
    } else {
        Seq::empty()
    }
}

/// A number text with its digits in front of the decimal point in groups of three.
pub fn group_decimal(rendered: &str) -> (result: String)
    ensures
        result@ == grouped_decimal(rendered@),
{
    let chars: Vec<char> = text::chars_of(rendered);
    let total: usize = chars.len();
    let sign: usize = if total > 0 && chars[0] == '-' { 1 } else { 0 };
    let body: Vec<char> = text::part(&chars, sign, total);
    assert(body@ == rendered@.skip(sign as int));
    let point: usize = text::position_of(&body, body.len(), '.', '.');
    assert(body@.take(body@.len() as int) == body@);
    let whole: Vec<char> = text::part(&body, 0, point);
    assert(whole@ == body@.take(point as int));
    let plus: usize = if whole.len() > 0 && whole[0] == '+' { 1 } else { 0 };
    let minus: bool = whole.len() > 0 && whole[0] == '-';
    assert(whole@.skip(0) == whole@);
    let mut result: String = String::new();
    text::push_chars(&mut result, &chars, 0, sign);
    assert(chars@.subrange(0, sign as int) == rendered@.take(sign as int));
    assert(result@ == rendered@.take(sign as int));
    let value: Option<u128> = if minus { None } else { read_digits(&whole, plus) };
    match value {
        Some(value) => {
            let digits: String = comma_u128(value);
            result.append(digits.as_str());
        },
        None => {
            text::push_chars(&mut result, &whole, 0, whole.len());
            assert(whole@.subrange(0, whole@.len() as int) == whole@);
        },
    }
    let length: usize = body.len();
    if point < length && point + 1 < length {
        text::push_chars(&mut result, &body, point, length);
        assert(body@.subrange(point as int, length as int) == body@.skip(point as int));
    }
    assert(result@ == grouped_decimal(rendered@));
    result
}

/// The number that digits denote is at least the one that a prefix of them denotes.
proof fn decimal_value_grows(digits: Seq<char>, prefix: int)
    requires
        0 <= prefix <= digits.len(),
    ensures
        decimal_value(digits.take(prefix)) <= decimal_value(digits),
    decreases digits.len() - prefix,
{
    if prefix < digits.len() {
        decimal_value_grows(digits, prefix + 1);
        assert(digits.take(prefix + 1).drop_last() == digits.take(prefix));
    } else {
        assert(digits.take(prefix) == digits);
    }
}

/// Reads a text as an integer between `lowest` and `highest`.
pub fn read_integer(text: &str, lowest: i128, highest: i128) -> (result: Option<i128>)
    requires
        lowest > i128::MIN,
    ensures
        result == match integer_value(text@) {
            Some(value) => if lowest <= value <= highest {
                Some(value as i128)
            } else {
                None
            },
            None => None,
        },
{
    let chars: Vec<char> = text::chars_of(text);
    let negative: bool = chars.len() > 0 && chars[0] == '-';
    let signed: bool = negative || (chars.len() > 0 && chars[0] == '+');
    let from: usize = if signed { 1 } else { 0 };
    assert(chars@.skip(0) == chars@);
    assert(chars@.skip(from as int) == unsigned_part(text@));
    match read_digits(&chars, from) {
        None => None,
        Some(size) => {
            if size > i128::MAX as u128 {
                None
            } else {
                let value: i128 = if negative { -(size as i128) } else { size as i128 };
                if lowest <= value && value <= highest {
                    Some(value)
                } else {
                    None
                }
            }
        },
    }
}

/// Reads a text as a number up to `highest`.
pub fn read_natural(text: &str, highest: i128) -> (result: Option<i128>)
    requires
        highest >= 0,
    ensures
        result == match natural_value(text@) {
            Some(value) => if value <= highest {
                Some(value as i128)
            } else {
                None
            },
            None => None,
        },
{
    if text.unicode_len() > 0 && text.get_char(0) == '-' {
        None
    } else {
        proof {
            if let Some(value) = integer_value(text@) {
                assert(0 <= value);
            }
        }
        read_integer(text, 0, highest)
    }
}

/// What stands in TOML for a number with a fraction, given by its text: `nan` for what is not a
/// number.
pub open spec fn toml_float(rendered: Seq<char>) -> Seq<char> {
    if rendered == "NaN"@ {
        "nan"@
    } else {
        rendered
    }
}

/// What stands in TOML for a number with a fraction, given by its text.
pub fn toml_float_word(rendered: &str) -> (result: String)
    ensures
        result@ == toml_float(rendered@),
{
    if text::same(rendered, "NaN") {
        "nan".to_owned()
    } else {
        rendered.to_owned()
    }
}

/// A text without its commas.
pub open spec fn without_commas(text: Seq<char>) -> Seq<char> {
    text.filter(|ch: char| ch != ',')
}

/// Padding with zeros keeps the number: the text is made of digits, is as wide as it was to be or
/// has no zero in front, and reads as the number.
pub proof fn zero_padding_reads_back(value: nat, width: nat)
    ensures
        all_digits(zero_padded(value, width)),
        decimal_value(zero_padded(value, width)) == value,
        zero_padded(value, width).len() >= width,
        zero_padded(value, width).len() > width ==> zero_padded(value, width) == decimal(value),
{
    decimal_is_digits(value);
    decimal_reads_back(value);
    let digits = decimal(value);
    if digits.len() < width {
        let zeros = text::repeated('0', (width - digits.len()) as nat);
        leading_zeros_count_nothing(zeros, digits);
        assert forall|i: int| 0 <= i < (zeros + digits).len() implies is_digit(
            #[trigger] (zeros + digits)[i],
        ) by {
            if i >= zeros.len() {
                assert((zeros + digits)[i] == digits[i - zeros.len()]);
            }
        }
    }
}

proof fn leading_zeros_count_nothing(zeros: Seq<char>, digits: Seq<char>)
    requires
        forall|i: int| 0 <= i < zeros.len() ==> #[trigger] zeros[i] == '0',
    ensures
        decimal_value(zeros + digits) == decimal_value(digits),
    decreases digits.len(), zeros.len(),
{
    if digits.len() > 0 {
        leading_zeros_count_nothing(zeros, digits.drop_last());
        assert((zeros + digits).drop_last() == zeros + digits.drop_last());
        assert((zeros + digits).last() == digits.last());
    } else if zeros.len() > 0 {
        let fewer = zeros.drop_last();
        assert forall|i: int| 0 <= i < fewer.len() implies #[trigger] fewer[i] == '0' by {
            assert(zeros[i] == '0');
        }
        leading_zeros_count_nothing(fewer, digits);
        assert(zeros + digits == zeros);
        assert(fewer + digits == fewer);
        assert(zeros[zeros.len() - 1] == '0');
    } else {
        assert(zeros + digits == digits);
    }
}

/// Grouping the digits of an integer keeps the integer: without its commas the text reads as the
/// integer, and it starts with a minus sign exactly where the integer is negative.
pub proof fn grouped_integer_reads_back(value: int)
    ensures
        integer_value(without_commas(grouped_integer(value))) == Some(value),
        grouped_integer(value).len() > 0,
        grouped_integer(value)[0] == '-' <==> value < 0,
{
    let keep = |ch: char| ch != ',';
    reveal_strlit("-");
    integer_reads_back(value);
    let magnitude: nat = if value < 0 { (-value) as nat } else { value as nat };
    let digits = decimal(magnitude);
    decimal_is_digits(magnitude);
    grouping_keeps_digits(digits);
    first_digit_stays(digits);
    if value < 0 {
        assert("-"@ == seq!['-']);
        assert(seq!['-'].filter(keep) == seq!['-']) by {
            reveal_with_fuel(Seq::filter, 2);
            assert(seq!['-'].drop_last() == Seq::<char>::empty());
            assert(Seq::<char>::empty().push('-') == seq!['-']);
        }
        Seq::filter_distributes_over_add("-"@, grouped(digits), keep);
    } else {
        assert(is_digit(digits[0]));
    }
}

proof fn first_digit_stays(digits: Seq<char>)
    requires
        digits.len() > 0,
    ensures
        grouped(digits).len() > 0,
        grouped(digits)[0] == digits[0],
    decreases digits.len(),
{
    if digits.len() > 3 {
        first_digit_stays(digits.take(digits.len() - 3));
    }
}

/// Two hexadecimal digits stand for each byte, in the order of the bytes.
pub proof fn hex_text_reads_back(bytes: Seq<u8>, index: int)
    requires
        0 <= index < bytes.len(),
    ensures
        hex_text(bytes).len() == 2 * bytes.len(),
        hex_value(hex_text(bytes).subrange(2 * index, 2 * index + 2)) == Some(bytes[index] as nat),
    decreases bytes.len(),
{
    let before = bytes.drop_last();
    hex_text_length(bytes);
    hex_text_length(before);
    if index < before.len() {
        hex_text_reads_back(before, index);
        assert(hex_text(bytes).subrange(2 * index, 2 * index + 2) == hex_text(before).subrange(
            2 * index,
            2 * index + 2,
        ));
    } else {
        let pair = hex_byte(bytes.last());
        assert(hex_text(bytes).subrange(2 * index, 2 * index + 2) == pair);
        let one = pair.drop_last();
        assert(one.drop_last() == Seq::<char>::empty());
        assert(hex_value(Seq::<char>::empty()) == Some(0nat));
        assert(one.last() == hex_char((bytes.last() / 16) as nat));
        assert(pair.last() == hex_char((bytes.last() % 16) as nat));
        assert(hex_value(one) == Some((bytes.last() / 16) as nat));
        assert(hex_value(pair) == Some(bytes.last() as nat));
    }
}

proof fn hex_text_length(bytes: Seq<u8>)
    ensures
        hex_text(bytes).len() == 2 * bytes.len(),
    decreases bytes.len(),
{
    if bytes.len() > 0 {
        hex_text_length(bytes.drop_last());
    }
}

/// The digits of a text.
pub open spec fn only_digits(text: Seq<char>) -> Seq<char> {
    text.filter(|ch: char| is_digit(ch))
}

/// Digits behind digits: those in front count as many tens as there are digits behind them.
pub proof fn digits_in_front_count_tens(front: Seq<char>, back: Seq<char>)
    ensures
        decimal_value(front + back) == decimal_value(front) * power_of_ten(back.len())
            + decimal_value(back),
    decreases back.len(),
{
    if back.len() == 0 {
        assert(front + back == front);
        assert(power_of_ten(0) == 1);
    } else {
        let shorter = back.drop_last();
        digits_in_front_count_tens(front, shorter);
        assert((front + back).drop_last() == front + shorter);
        assert((front + back).last() == back.last());
        let a = decimal_value(front);
        let p = power_of_ten(shorter.len());
        assert(a * (10 * p) == (a * p) * 10) by (nonlinear_arith);
    }
}

/// Picking the digits out of a grouped text gives the digits that were grouped.
pub proof fn digits_of_groups(digits: Seq<char>)
    requires
        forall|i: int| 0 <= i < digits.len() ==> is_digit(#[trigger] digits[i]),
    ensures
        only_digits(grouped(digits)) == digits,
    decreases digits.len(),
{
    let keep = |ch: char| is_digit(ch);
    reveal_strlit(",");
    if digits.len() <= 3 {
        keeping_all(digits, keep);
    } else {
        let head = digits.take(digits.len() - 3);
        let tail = digits.skip(digits.len() - 3);
        digits_of_groups(head);
        keeping_all(tail, keep);
        assert(","@ == seq![',']);
        no_digit_kept(',');
        Seq::filter_distributes_over_add(grouped(head), ","@, keep);
        Seq::filter_distributes_over_add(grouped(head) + ","@, tail, keep);
        assert(head + Seq::<char>::empty() == head);
        assert(head + tail == digits);
    }
}

/// A text of one character that is no digit has no digits.
pub proof fn no_digit_kept(ch: char)
    requires
        !is_digit(ch),
    ensures
        only_digits(seq![ch]) == Seq::<char>::empty(),
{
    reveal_with_fuel(Seq::filter, 2);
    assert(seq![ch].drop_last() == Seq::<char>::empty());
}

/// All characters of a text of digits are its digits.
pub proof fn all_digits_kept(digits: Seq<char>)
    requires
        forall|i: int| 0 <= i < digits.len() ==> is_digit(#[trigger] digits[i]),
    ensures
        only_digits(digits) == digits,
{
    keeping_all(digits, |ch: char| is_digit(ch));
}

/// Grouping the digits of a number text changes no digit of it: a number text of a sign, digits and a
/// fraction keeps its sign and its fraction, and its whole part reads back.
pub proof fn grouped_decimals_read_back(value: nat, negative: bool, places: Seq<char>)
    requires
        value <= u128::MAX,
        places.len() > 0,
    ensures
        grouped_decimal(
            (if negative {
                "-"@
            } else {
                Seq::empty()
            }) + decimal(value) + seq!['.'] + places,
        ) == (if negative {
            "-"@
        } else {
            Seq::empty()
        }) + grouped_integer(value as int) + seq!['.'] + places,
        integer_value(without_commas(grouped_integer(value as int))) == Some(value as int),
        grouped_decimal(
            (if negative {
                "-"@
            } else {
                Seq::empty()
            }) + decimal(value),
        ) == (if negative {
            "-"@
        } else {
            Seq::empty()
        }) + grouped_integer(value as int),
{
    reveal_strlit("-");
    let digits = decimal(value);
    let sign = if negative {
        "-"@
    } else {
        Seq::empty()
    };
    decimal_is_digits(value);
    decimal_reads_back(value);
    grouped_integer_reads_back(value as int);
    assert(digits.len() > 0 && is_digit(digits[0]));
    assert(unsigned_part(digits) == digits);
    assert(natural_value(digits) == Some(value as int));
    assert(!digits.contains('.')) by {
        if digits.contains('.') {
            let i = choose|i: int| 0 <= i < digits.len() && digits[i] == '.';
            assert(is_digit(digits[i]));
        }
    }
    text::parts_are_pieces(digits, places, '.');
    text::parts_are_pieces(digits, Seq::empty(), '.');
    let whole = sign + digits + seq!['.'] + places;
    let body = digits + seq!['.'] + places;
    assert(whole.skip(sign.len() as int) == body);
    assert(whole.take(sign.len() as int) == sign);
    assert(whole[0] == if negative {
        '-'
    } else {
        digits[0]
    });
    assert(body.take(digits.len() as int) == digits);
    assert(body.skip(digits.len() as int) == seq!['.'] + places);
    assert(grouped_decimal(whole) == sign + grouped_integer(value as int) + (seq!['.'] + places));
    let short = sign + digits;
    assert(short.skip(sign.len() as int) == digits);
    assert(short.take(sign.len() as int) == sign);
    assert(short[0] == if negative {
        '-'
    } else {
        digits[0]
    });
    no_place_found(digits);
    assert(digits.take(digits.len() as int) == digits);
    assert(grouped_decimal(short) == sign + grouped_integer(value as int) + Seq::empty());
}

proof fn no_place_found(digits: Seq<char>)
    requires
        !digits.contains('.'),
    ensures
        text::first_of(digits, '.', '.') == digits.len(),
    decreases digits.len(),
{
    if digits.len() > 0 {
        let rest = digits.skip(1);
        assert(digits[0] != '.') by {
            assert(digits.contains(digits[0]));
        }
        assert(!rest.contains('.')) by {
            if rest.contains('.') {
                let i = choose|i: int| 0 <= i < rest.len() && rest[i] == '.';
                assert(digits[i + 1] == '.');
            }
        }
        no_place_found(rest);
    }
}

/// What stands in TOML for a number with a fraction is its text, but for what is no number.
pub proof fn numbers_stand_for_themselves(rendered: Seq<char>)
    ensures
        rendered != "NaN"@ ==> toml_float(rendered) == rendered,
        toml_float("NaN"@) == "nan"@,
{
}

} // verus!

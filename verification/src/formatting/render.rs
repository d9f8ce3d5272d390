//! Field values as text, and how wide that text can become.

use crate::formatting::calendar;
use crate::formatting::calendar::format_unix_timestamp;
use crate::formatting::value;
use crate::formatting::value::{FieldValue, ValueModel};
use crate::number;
use crate::schema::{Field, FieldModel, FieldSemantic, FieldType, TimestampUnit};
use crate::text;
use vstd::prelude::*;
use vstd::string::*;

verus! {

/// The number in an integer value.
pub open spec fn numeric(value: ValueModel) -> Option<int> {
    match value {
        ValueModel::Signed(number) => Some(number),
        ValueModel::Unsigned(number) => Some(number),
        _ => None,
    }
}

/// A value as it is, with `fraction` for the text of a number that is no integer.
pub open spec fn plain_text(value: ValueModel, fraction: Seq<char>) -> Seq<char> {
    match value {
        ValueModel::Signed(number) => number::integer_text(number),
        ValueModel::Unsigned(number) => number::integer_text(number),
        ValueModel::Float32(_) | ValueModel::Float64(_) | ValueModel::Decimal(_) => fraction,
        ValueModel::Text(text) => text,
    }
}

/// The most negative integer of a width in bytes.
pub open spec fn signed_minimum(length: u16) -> int {
    if 1 <= length <= 16 {
        -(value::byte_range(length as nat) as int) / 2
    } else {
        i128::MIN as int
    }
}

/// Whether a value stands for a missing one: in a signed field of fixed-point numbers or
/// percentages, the most negative integer does.
pub open spec fn is_missing(field: FieldModel, value: ValueModel) -> bool {
    &&& field.field_type == FieldType::SignedInteger
    &&& field.semantic is FixedPoint || field.semantic is Percentage
    &&& numeric(value) == Some(signed_minimum(field.length))
}

/// `value / 10^points` with exactly `points` digits behind the point and the digits in front of it
/// in groups of three.
pub open spec fn fixed_point_text(value: int, points: nat, percent: bool) -> Seq<char> {
    let scale = number::power_of_ten(points);
    let size: nat = if value < 0 { (-value) as nat } else { value as nat };
    let sign = if value < 0 { "-"@ } else { Seq::empty() };
    let whole = sign + number::grouped(number::decimal(size / scale));
    let shown = if points > 0 {
        whole + "."@ + number::zero_padded(size % scale, points)
    } else {
        whole
    };
    if percent {
        shown + "%"@
    } else {
        shown
    }
}

/// A value as people read it.
pub open spec fn display_text(field: FieldModel, value: ValueModel, fraction: Seq<char>) -> Seq<
    char,
> {
    if is_missing(field, value) {
        "-"@
    } else {
        match (field.semantic, numeric(value)) {
            (FieldSemantic::UnixTimestamp(unit), Some(number)) => match calendar::timestamp_text(
                number,
                unit,
            ) {
                Some(text) => text,
                None => plain_text(value, fraction),
            },
            (FieldSemantic::FixedPoint(points), Some(number)) => fixed_point_text(
                number,
                points as nat,
                false,
            ),
            (FieldSemantic::Percentage(points), Some(number)) => fixed_point_text(
                number,
                points as nat,
                true,
            ),
            _ => plain_text(value, fraction),
        }
    }
}

/// Whether a floating-point value is a number and not infinite.
pub open spec fn is_finite(value: ValueModel) -> bool {
    match value {
        ValueModel::Float32(bits) => bits / 0x80_0000 % 0x100 != 0xFF,
        ValueModel::Float64(bits) => bits / 0x10_0000_0000_0000 % 0x800 != 0x7FF,
        _ => true,
    }
}

/// The digits of the largest number that fits into a width in bytes.
pub open spec fn digits_of_width(length: u16) -> nat {
    if length == 1 {
        3
    } else if length == 2 {
        5
    } else if length == 4 {
        10
    } else if length == 8 {
        20
    } else {
        (length * 3) as nat
    }
}

/// The characters of a timestamp.
pub open spec fn instant_width(unit: TimestampUnit) -> nat {
    match unit {
        TimestampUnit::Seconds => 20,
        TimestampUnit::Milliseconds => 24,
        TimestampUnit::Microseconds => 27,
        TimestampUnit::Nanoseconds => 30,
    }
}

/// The characters of the longest fixed-point number of a field.
pub open spec fn fixed_width(field: FieldModel, points: nat, percent: bool) -> nat {
    let digits = digits_of_width(field.length);
    let whole: nat = if digits <= points + 1 { 1 } else { (digits - points) as nat };
    let commas: nat = ((whole - 1) / 3) as nat;
    whole + commas + (if points > 0 { 1 + points } else { 0 }) + (if percent { 1nat } else { 0 })
        + (if field.field_type == FieldType::SignedInteger { 1nat } else { 0 })
}

/// The length of the longest of some texts; `least` where none is longer.
pub open spec fn longest(values: Seq<Seq<char>>, least: nat) -> nat
    decreases values.len(),
{
    if values.len() == 0 {
        least
    } else if values.last().len() > longest(values.drop_last(), least) {
        values.last().len()
    } else {
        longest(values.drop_last(), least)
    }
}

/// The characters of the longest value of a field whose numbers stand for themselves.
pub open spec fn value_width(field: FieldModel, strings: Seq<Seq<char>>) -> nat {
    match field.field_type {
        FieldType::SignedInteger => digits_of_width(field.length) + 1,
        FieldType::UnsignedInteger => digits_of_width(field.length),
        FieldType::FloatingPoint => if field.length == 4 {
            16
        } else if field.length == 8 {
            24
        } else if field.length == 16 {
            34
        } else {
            (field.length * 2) as nat
        },
        FieldType::Utf8String => field.length as nat,
        FieldType::StringTableIndex => if strings.len() == 0 {
            1
        } else {
            longest(strings, 0)
        },
    }
}

/// The width of the column of a field: that of its longest value, or of its name.
pub open spec fn column_width(field: FieldModel, strings: Seq<Seq<char>>) -> nat {
    let width = match field.semantic {
        FieldSemantic::UnixTimestamp(unit) => instant_width(unit),
        FieldSemantic::FixedPoint(points) => fixed_width(field, points as nat, false),
        FieldSemantic::Percentage(points) => fixed_width(field, points as nat, true),
        FieldSemantic::Plain => value_width(field, strings),
    };
    if field.name.len() > width {
        field.name.len()
    } else {
        width
    }
}

/// Characters with a comma in front of each one but the first whose distance from `places` can be
/// divided by three.
pub open spec fn marked(chars: Seq<char>, places: int) -> Seq<char>
    decreases chars.len(),
{
    if chars.len() == 0 {
        Seq::empty()
    } else {
        let last = chars.len() - 1;
        let before = marked(chars.drop_last(), places);
        if last > 0 && (places - last) % 3 == 0 {
            (before + ","@).push(chars[last])
        } else {
            before.push(chars[last])
        }
    }
}

/// A text with a comma in front of every group of three, counted by the bytes of the text.
pub open spec fn marked_by_bytes(value: Seq<char>) -> Seq<char> {
    marked(value, vstd::utf8::encode_utf8(value).len() as int)
}

/// The number text in which digits in front of the decimal point stand in groups of three.
pub open spec fn grouped_number(value: Seq<char>) -> Seq<char> {
    let exponent = text::first_of(value, 'e', 'E');
    let point = text::first_of(value.take(exponent), '.', '.');
    let whole = value.take(point);
    let rest = value.skip(point);
    if whole.len() > 0 && whole[0] == '-' {
        "-"@ + marked_by_bytes(whole.skip(1)) + rest
    } else {
        marked_by_bytes(whole) + rest
    }
}

/// The number in an integer value.
pub fn numeric_i128(value: &FieldValue) -> (result: Option<i128>)
    ensures
        match result {
            Some(number) => numeric(value@) == Some(number as int),
            None => numeric(value@) is None,
        },
{
    match value {
        FieldValue::Signed(number) => Some(*number as i128),
        FieldValue::Unsigned(number) => Some(*number as i128),
        _ => None,
    }
}

/// A value as it is, with `fraction` for the text of a number that is no integer.
pub fn render_plain(value: &FieldValue, fraction: &str) -> (result: String)
    ensures
        result@ == plain_text(value@, fraction@),
{
    match value {
        FieldValue::Signed(number) => number::integer_string(*number as i128),
        FieldValue::Unsigned(number) => number::integer_string(*number as i128),
        FieldValue::Float32(_) | FieldValue::Float64(_) | FieldValue::Decimal(_) => {
            fraction.to_owned()
        },
        FieldValue::String(text) => text.clone(),
    }
}

/// The most negative integer of a width in bytes.
pub fn signed_lowest(length: u16) -> (result: i128)
    ensures
        result == signed_minimum(length),
{
    if length == 0 || length > 16 {
        return i128::MIN;
    }
    let mut value: i128 = -128;
    let mut i: u16 = 1;
    assert(value::byte_range(1) == 256) by {
        value::byte_ranges();
    }
    while i < length
        invariant
            1 <= i <= length <= 16,
            2 * value == -(value::byte_range(i as nat) as int),
        decreases length - i,
    {
        i = i + 1;
        assert(value::byte_range(i as nat) == 256 * value::byte_range((i - 1) as nat));
        proof {
            reveal_with_fuel(value::byte_range, 17);
        }
        value = value * 256;
    }
    value
}

/// Whether a value stands for a missing one.
pub fn fixed_point_null(field: &Field, value: &FieldValue) -> (result: bool)
    ensures
        result == is_missing(field@, value@),
{
    let scaled: bool = match field.semantic {
        FieldSemantic::FixedPoint(_) | FieldSemantic::Percentage(_) => true,
        _ => false,
    };
    if field.field_type != FieldType::SignedInteger || !scaled {
        return false;
    }
    match numeric_i128(value) {
        Some(number) => number == signed_lowest(field.length),
        None => false,
    }
}

/// Appends some of the characters with a comma in front of every group of three, counted by bytes.
fn push_marked(out: &mut String, chars: &Vec<char>, start: usize, end: usize)
    requires
        start <= end <= chars@.len(),
    ensures
        final(out)@ == old(out)@ + marked_by_bytes(chars@.subrange(start as int, end as int)),
{
    let ghost before = out@;
    let ghost shown = chars@.subrange(start as int, end as int);
    let mut copy: String = String::new();
    text::push_chars(&mut copy, chars, start, end);
    assert(copy@ == shown);
    let places: usize = copy.as_str().as_bytes().len();
    proof {
        no_char_without_bytes(shown);
    }
    let mut i: usize = start;
    assert(out@ == before + marked(shown.take(0), places as int));
    while i < end
        invariant
            start <= i <= end <= chars@.len(),
            shown == chars@.subrange(start as int, end as int),
            places >= end - start,
            out@ == before + marked(shown.take(i - start), places as int),
        decreases end - i,
    {
        let ghost next = shown.take(i - start + 1);
        assert(next.drop_last() == shown.take(i - start));
        assert(next[i - start] == chars@[i as int]);
        if i > start && (places - (i - start)) % 3 == 0 {
            out.append(",");
        }
        out.push(chars[i]);
        i = i + 1;
        assert(out@ == before + marked(next, places as int));
    }
    assert(shown.take(end - start) == shown);
}

/// A number text with the digits in front of the decimal point in groups of three.
pub fn group_number(value: &str) -> (result: String)
    ensures
        result@ == grouped_number(value@),
{
    let chars: Vec<char> = text::chars_of(value);
    let exponent: usize = text::position_of(&chars, chars.len(), 'e', 'E');
    assert(chars@.take(chars@.len() as int) == value@);
    let point: usize = text::position_of(&chars, exponent, '.', '.');
    let ghost whole = value@.take(point as int);
    let mut result: String = String::new();
    if point > 0 && chars[0] == '-' {
        result.append("-");
        push_marked(&mut result, &chars, 1, point);
        assert(chars@.subrange(1, point as int) == whole.skip(1));
        assert(result@ == "-"@ + marked_by_bytes(whole.skip(1)));
    } else {
        push_marked(&mut result, &chars, 0, point);
        assert(chars@.subrange(0, point as int) == whole);
        assert(result@ == marked_by_bytes(whole));
    }
    text::push_chars(&mut result, &chars, point, chars.len());
    assert(chars@.subrange(point as int, chars@.len() as int) == value@.skip(point as int));
    result
}

proof fn no_char_without_bytes(chars: Seq<char>)
    ensures
        vstd::utf8::encode_utf8(chars).len() >= chars.len(),
    decreases chars.len(),
{
    if chars.len() > 0 {
        no_char_without_bytes(chars.drop_first());
    }
}

/// The text of a whole number is grouped as its digits are: in threes, counted from the end.
pub proof fn digits_are_grouped_whole(digits: Seq<char>)
    requires
        number::all_digits(digits),
    ensures
        grouped_number(digits) == number::grouped(digits),
{
    no_digit_stops(digits, 'e', 'E');
    assert(digits.take(digits.len() as int) == digits);
    no_digit_stops(digits, '.', '.');
    assert(number::is_digit(digits[0]));
    assert(digits.skip(digits.len() as int) == Seq::<char>::empty());
    assert(vstd::utf8::is_ascii_chars(digits)) by {
        assert forall|i: int| 0 <= i < digits.len() implies '\0' <= #[trigger] digits[i]
            <= '\u{7f}' by {
            assert(number::is_digit(digits[i]));
        }
    }
    vstd::utf8::is_ascii_chars_encode_utf8(digits);
    marks_are_groups(digits);
    assert(number::grouped(digits) + Seq::<char>::empty() == number::grouped(digits));
}

proof fn marks_are_groups(digits: Seq<char>)
    ensures
        marked(digits, digits.len() as int) == number::grouped(digits),
    decreases digits.len(),
{
    let count = digits.len() as int;
    reveal_with_fuel(marked, 4);
    if count <= 3 {
        assert(marked(digits, count) == digits);
    } else {
        let head = digits.take(count - 3);
        let one = digits.take(count - 2);
        let two = digits.take(count - 1);
        assert(digits.drop_last() == two);
        assert(two.drop_last() == one);
        assert(one.drop_last() == head);
        marks_repeat(head, count - 3);
        marks_are_groups(head);
        assert(marked(one, count) == (marked(head, count) + ","@).push(digits[count - 3]));
        assert(marked(two, count) == marked(one, count).push(digits[count - 2]));
        assert(marked(digits, count) == marked(two, count).push(digits[count - 1]));
        assert(marked(digits, count) == number::grouped(digits));
    }
}

proof fn marks_repeat(chars: Seq<char>, places: int)
    ensures
        marked(chars, places + 3) == marked(chars, places),
    decreases chars.len(),
{
    if chars.len() > 0 {
        marks_repeat(chars.drop_last(), places);
    }
}

proof fn no_digit_stops(digits: Seq<char>, one: char, other: char)
    requires
        forall|i: int| 0 <= i < digits.len() ==> number::is_digit(#[trigger] digits[i]),
        !number::is_digit(one),
        !number::is_digit(other),
    ensures
        text::first_of(digits, one, other) == digits.len(),
    decreases digits.len(),
{
    if digits.len() > 0 {
        assert(number::is_digit(digits[0]));
        assert forall|i: int| 0 <= i < digits.skip(1).len() implies number::is_digit(
            #[trigger] digits.skip(1)[i],
        ) by {
            assert(number::is_digit(digits[i + 1]));
        }
        no_digit_stops(digits.skip(1), one, other);
    }
}

/// An integer as `value / 10^points` with exactly `points` digits behind the point.
pub fn format_fixed_point(value: i128, points: u8, percent: bool) -> (result: String)
    requires
        points <= 38,
    ensures
        result@ == fixed_point_text(value as int, points as nat, percent),
{
    let scale: u128 = number::ten_to(points);
    let size: u128 = number::magnitude(value);
    let mut out: String = String::new();
    if value < 0 {
        out.append("-");
    }
    let whole: String = group_number(number::decimal_string(size / scale).as_str());
    proof {
        number::decimal_is_digits((size / scale) as nat);
        digits_are_grouped_whole(number::decimal((size / scale) as nat));
    }
    let ghost sign = if value < 0 { "-"@ } else { Seq::<char>::empty() };
    assert(out@ == sign);
    out.append(whole.as_str());
    if points > 0 {
        out.append(".");
        number::push_zero_padded(&mut out, size % scale, points as usize);
    }
    if percent {
        out.append("%");
    }
    out
}

/// A value as people read it.
pub fn render_display(field: &Field, value: &FieldValue, fraction: &str) -> (result: String)
    requires
        field.semantic.decimals() <= 38,
    ensures
        result@ == display_text(field@, value@, fraction@),
{
    if fixed_point_null(field, value) {
        return "-".to_owned();
    }
    if let Some(number) = numeric_i128(value) {
        match field.semantic {
            FieldSemantic::UnixTimestamp(unit) => {
                if let Some(rendered) = format_unix_timestamp(number, unit) {
                    return rendered;
                }
            },
            FieldSemantic::FixedPoint(points) => {
                return format_fixed_point(number, points, false);
            },
            FieldSemantic::Percentage(points) => {
                return format_fixed_point(number, points, true);
            },
            FieldSemantic::Plain => {},
        }
    }
    render_plain(value, fraction)
}

/// Whether the field holds numbers.
pub fn is_numeric(field_type: FieldType) -> (result: bool)
    ensures
        result == holds_numbers(field_type),
{
    field_type == FieldType::SignedInteger || field_type == FieldType::UnsignedInteger || field_type
        == FieldType::FloatingPoint
}

/// Whether the field holds numbers.
pub open spec fn holds_numbers(field_type: FieldType) -> bool {
    ||| field_type == FieldType::SignedInteger
    ||| field_type == FieldType::UnsignedInteger
    ||| field_type == FieldType::FloatingPoint
}

/// The digits of the largest number that fits into a width in bytes.
pub fn integer_digits(length: u16) -> (result: usize)
    ensures
        result == digits_of_width(length),
{
    match length {
        1 => 3,
        2 => 5,
        4 => 10,
        8 => 20,
        other => other as usize * 3,
    }
}

/// The characters of a timestamp.
pub fn timestamp_width(unit: TimestampUnit) -> (result: usize)
    ensures
        result == instant_width(unit),
{
    match unit {
        TimestampUnit::Seconds => 20,
        TimestampUnit::Milliseconds => 24,
        TimestampUnit::Microseconds => 27,
        TimestampUnit::Nanoseconds => 30,
    }
}

/// The characters of the longest fixed-point number of a field.
pub fn fixed_point_width(field: &Field, points: u8, percent: bool) -> (result: usize)
    ensures
        result == fixed_width(field@, points as nat, percent),
{
    let digits: usize = integer_digits(field.length);
    let points: usize = points as usize;
    let whole: usize = if digits <= points + 1 { 1 } else { digits - points };
    let mut width: usize = whole + (whole - 1) / 3;
    if points > 0 {
        width = width + 1 + points;
    }
    if percent {
        width = width + 1;
    }
    if field.field_type == FieldType::SignedInteger {
        width = width + 1;
    }
    width
}

/// The characters of the longest value of a field whose numbers stand for themselves.
pub fn plain_width(field: &Field, string_table: &[String]) -> (result: usize)
    ensures
        result == value_width(field@, text::views(string_table@)),
{
    match field.field_type {
        FieldType::SignedInteger => integer_digits(field.length) + 1,
        FieldType::UnsignedInteger => integer_digits(field.length),
        FieldType::FloatingPoint => match field.length {
            4 => 16,
            8 => 24,
            16 => 34,
            other => other as usize * 2,
        },
        FieldType::Utf8String => field.length as usize,
        FieldType::StringTableIndex => if string_table.len() == 0 {
            1
        } else {
            longest_text(string_table)
        },
    }
}

/// The length of the longest of some texts.
pub fn longest_text(values: &[String]) -> (result: usize)
    ensures
        result == longest(text::views(values@), 0),
{
    let ghost texts = text::views(values@);
    let mut width: usize = 0;
    let mut i: usize = 0;
    assert(texts.take(0) == Seq::<Seq<char>>::empty());
    while i < values.len()
        invariant
            i <= values@.len(),
            texts == text::views(values@),
            width == longest(texts.take(i as int), 0),
        decreases values@.len() - i,
    {
        assert(texts.take(i as int + 1).drop_last() == texts.take(i as int));
        let length: usize = values[i].as_str().unicode_len();
        if length > width {
            width = length;
        }
        i = i + 1;
    }
    assert(texts.take(i as int) == texts);
    width
}

/// The width of the column of a field: that of its longest value, or of its name.
pub fn field_width(field: &Field, string_table: &[String]) -> (result: usize)
    ensures
        result == column_width(field@, text::views(string_table@)),
{
    let width: usize = match field.semantic {
        FieldSemantic::UnixTimestamp(unit) => timestamp_width(unit),
        FieldSemantic::FixedPoint(points) => fixed_point_width(field, points, false),
        FieldSemantic::Percentage(points) => fixed_point_width(field, points, true),
        FieldSemantic::Plain => plain_width(field, string_table),
    };
    let name: usize = field.name.as_str().unicode_len();
    if name > width {
        name
    } else {
        width
    }
}

/// Whether a number can be stored in an integer field.
pub open spec fn fits_field(field: FieldModel, number: int) -> bool {
    let range = value::byte_range(field.length as nat) as int;
    &&& value::is_integer_width(field.length as nat)
    &&& field.field_type == FieldType::SignedInteger ==> -range <= 2 * number < range
    &&& field.field_type == FieldType::UnsignedInteger ==> 0 <= number < range
}

/// The value of an integer field that holds a number.
pub open spec fn integer_value(field: FieldModel, number: int) -> ValueModel {
    if field.field_type == FieldType::SignedInteger {
        ValueModel::Signed(number)
    } else {
        ValueModel::Unsigned(number)
    }
}

proof fn digits_suffice(field: FieldModel, number: int)
    requires
        field.is_integer(),
        fits_field(field, number),
    ensures
        -(number::power_of_ten(digits_of_width(field.length)) as int) < number,
        number < number::power_of_ten(digits_of_width(field.length)),
        field.field_type == FieldType::UnsignedInteger ==> number >= 0,
{
    value::byte_ranges();
    reveal_with_fuel(number::power_of_ten, 21);
}

proof fn quotient_digits(size: nat, digits: nat, points: nat)
    requires
        digits > 0,
        size < number::power_of_ten(digits),
    ensures
        ({
            let whole: nat = if digits <= points + 1 { 1 } else { (digits - points) as nat };
            1 <= number::decimal(size / number::power_of_ten(points)).len() <= whole
        }),
{
    let scale = number::power_of_ten(points);
    number::power_is_positive(points);
    let whole: nat = if digits <= points + 1 { 1 } else { (digits - points) as nat };
    let bound = number::power_of_ten(whole);
    number::power_splits(whole, points);
    if digits > points + 1 {
        assert(size < bound * scale);
    } else {
        power_grows(digits, whole + points);
    }
    assert(size / scale < bound) by (nonlinear_arith)
        requires
            size < bound * scale,
            scale > 0,
    ;
    number::decimal_length(size / scale, whole);
}

proof fn power_grows(low: nat, high: nat)
    requires
        low <= high,
    ensures
        number::power_of_ten(low) <= number::power_of_ten(high),
    decreases high - low,
{
    if low < high {
        power_grows(low, (high - 1) as nat);
    }
}

/// No fixed-point number or percentage of an integer field is wider than its column.
proof fn fixed_point_fits(field: FieldModel, number: int, points: nat, percent: bool)
    requires
        field.is_integer(),
        fits_field(field, number),
    ensures
        fixed_point_text(number, points, percent).len() <= fixed_width(field, points, percent),
{
    reveal_strlit("-");
    reveal_strlit(".");
    reveal_strlit("%");
    let digits = digits_of_width(field.length);
    let size: nat = if number < 0 { (-number) as nat } else { number as nat };
    let scale = number::power_of_ten(points);
    digits_suffice(field, number);
    quotient_digits(size, digits, points);
    number::grouped_length(number::decimal(size / scale));
    number::power_is_positive(points);
    if points > 0 {
        assert(size % scale < scale) by (nonlinear_arith)
            requires
                scale > 0,
        ;
        number::decimal_length(size % scale, points);
        assert(number::zero_padded(size % scale, points).len() == points);
    }
}

/// No integer of an integer field is wider than its column, whatever it stands for, as long as it
/// is no timestamp.
pub proof fn column_holds_integers(
    field: FieldModel,
    strings: Seq<Seq<char>>,
    number: int,
    fraction: Seq<char>,
)
    requires
        field.is_integer(),
        fits_field(field, number),
        !(field.semantic is UnixTimestamp),
    ensures
        display_text(field, integer_value(field, number), fraction).len() <= column_width(
            field,
            strings,
        ),
{
    reveal_strlit("-");
    match field.semantic {
        FieldSemantic::FixedPoint(points) => {
            fixed_point_fits(field, number, points as nat, false);
        },
        FieldSemantic::Percentage(points) => {
            fixed_point_fits(field, number, points as nat, true);
        },
        _ => {
            let size: nat = if number < 0 { (-number) as nat } else { number as nat };
            digits_suffice(field, number);
            number::decimal_length(size, digits_of_width(field.length));
        },
    }
}

/// A timestamp in the years -999 to 9999 takes up exactly the width that is kept for it.
pub proof fn timestamps_have_one_width(value: int, unit: TimestampUnit)
    requires
        calendar::timestamp_text(value, unit) is Some,
        -999 <= calendar::date_of(value / calendar::steps_per_second(unit) / 86_400).0 <= 9_999,
    ensures
        (calendar::timestamp_text(value, unit)->0).len() == instant_width(unit),
{
    reveal_strlit("-");
    reveal_strlit("T");
    reveal_strlit(":");
    reveal_strlit(".");
    reveal_strlit("Z");
    reveal_with_fuel(number::power_of_ten, 10);
    let seconds = value / calendar::steps_per_second(unit);
    let second = seconds % 86_400;
    let rest = value % calendar::steps_per_second(unit);
    let (year, month, day) = calendar::date_of(seconds / 86_400);
    calendar::every_day_has_a_date(seconds / 86_400);
    padded_exactly(month as nat, 2);
    padded_exactly(day as nat, 2);
    padded_exactly((second / 3_600) as nat, 2);
    padded_exactly((second % 3_600 / 60) as nat, 2);
    padded_exactly((second % 60) as nat, 2);
    if year < 0 {
        padded_exactly((-year) as nat, 3);
    } else {
        padded_exactly(year as nat, 4);
    }
    match unit {
        TimestampUnit::Seconds => {},
        TimestampUnit::Milliseconds => padded_exactly(rest as nat, 3),
        TimestampUnit::Microseconds => padded_exactly(rest as nat, 6),
        TimestampUnit::Nanoseconds => padded_exactly(rest as nat, 9),
    }
}

proof fn padded_exactly(value: nat, width: nat)
    requires
        width > 0,
        value < number::power_of_ten(width),
    ensures
        number::zero_padded(value, width).len() == width,
{
    number::decimal_length(value, width);
}

/// An integer is written as it is: reading its text gives it back.
pub proof fn plain_integers_read_back(value: ValueModel, fraction: Seq<char>)
    ensures
        numeric(value) matches Some(number) ==> number::integer_value(plain_text(value, fraction))
            == Some(number),
        value matches ValueModel::Signed(number) ==> numeric(value) == Some(number),
        value matches ValueModel::Unsigned(number) ==> numeric(value) == Some(number),
        value matches ValueModel::Text(text) ==> plain_text(value, fraction) == text,
        value is Float32 || value is Float64 || value is Decimal ==> plain_text(value, fraction)
            == fraction && numeric(value) is None,
{
    match numeric(value) {
        Some(number) => number::integer_reads_back(number),
        None => {},
    }
}

/// A fixed-point number keeps all its digits, and its point stands where it belongs: the digits of
/// the text are those of the integer, as many of them as there are decimal places stand behind the
/// point, a minus sign stands in front exactly of a negative number, and a percent sign behind
/// exactly of a percentage.
pub proof fn fixed_point_reads_back(value: int, points: nat, percent: bool)
    ensures
        ({
            let text = fixed_point_text(value, points, percent);
            let end = text.len() - (if percent {
                1int
            } else {
                0
            });
            &&& number::decimal_value(number::only_digits(text)) == if value < 0 {
                -value
            } else {
                value
            }
            &&& text[0] == '-' <==> value < 0
            &&& text.last() == '%' <==> percent
            &&& points > 0 ==> end > points + 1 && text[end - points - 1] == '.' && forall|i: int|
                end - points <= i < end ==> number::is_digit(#[trigger] text[i])
            &&& points == 0 ==> forall|i: int| 0 <= i < text.len() ==> #[trigger] text[i] != '.'
        }),
{
    reveal_strlit("-");
    reveal_strlit(".");
    reveal_strlit("%");
    let keep = |ch: char| number::is_digit(ch);
    let scale = number::power_of_ten(points);
    number::power_is_positive(points);
    let size: nat = if value < 0 { (-value) as nat } else { value as nat };
    let whole = size / scale;
    let rest = size % scale;
    assert(whole * scale + rest == size && rest < scale) by (nonlinear_arith)
        requires
            whole == size / scale,
            rest == size % scale,
            scale > 0,
    ;
    let sign = if value < 0 { "-"@ } else { Seq::empty() };
    let digits = number::decimal(whole);
    let front = number::grouped(digits);
    let places = if points > 0 { number::zero_padded(rest, points) } else { Seq::empty() };
    let point = if points > 0 { "."@ } else { Seq::empty() };
    let mark = if percent { "%"@ } else { Seq::empty() };
    let text = fixed_point_text(value, points, percent);
    assert(text == sign + front + point + places + mark);
    number::decimal_is_digits(whole);
    number::decimal_reads_back(whole);
    number::digits_of_groups(digits);
    grouped_chars(digits);
    if points > 0 {
        number::zero_padding_reads_back(rest, points);
        number::decimal_length(rest, points);
        assert(places.len() == points);
    } else {
        assert(rest == 0);
    }
    number::all_digits_kept(places);
    small_texts_without_digits();
    Seq::filter_distributes_over_add(sign, front, keep);
    Seq::filter_distributes_over_add(sign + front, point, keep);
    Seq::filter_distributes_over_add(sign + front + point, places, keep);
    Seq::filter_distributes_over_add(sign + front + point + places, mark, keep);
    assert(number::only_digits(text) == digits + places);
    number::digits_in_front_count_tens(digits, places);
    assert(number::decimal_value(Seq::<char>::empty()) == 0);
    assert(number::power_of_ten(0) == 1);
    let end = text.len() - mark.len();
    if points > 0 {
        assert(text[end - points - 1] == '.');
        assert forall|i: int| end - points <= i < end implies number::is_digit(
            #[trigger] text[i],
        ) by {
            assert(text[i] == places[i - (end - points)]);
        }
        assert(percent || text.last() == places[points - 1]);
    } else {
        assert forall|i: int| 0 <= i < text.len() implies #[trigger] text[i] != '.' by {
            if sign.len() <= i < sign.len() + front.len() {
                assert(text[i] == front[i - sign.len()]);
            }
        }
        assert(percent || text.last() == front[front.len() - 1]);
    }
    assert(value < 0 || text[0] == front[0]);
}

proof fn grouped_chars(digits: Seq<char>)
    requires
        number::all_digits(digits),
    ensures
        number::grouped(digits).len() > 0,
        forall|i: int|
            0 <= i < number::grouped(digits).len() ==> number::is_digit(
                #[trigger] number::grouped(digits)[i],
            ) || number::grouped(digits)[i] == ',',
        number::is_digit(number::grouped(digits)[0]),
    decreases digits.len(),
{
    reveal_strlit(",");
    if digits.len() > 3 {
        let head = digits.take(digits.len() - 3);
        assert forall|i: int| 0 <= i < head.len() implies number::is_digit(#[trigger] head[i]) by {
            assert(number::is_digit(digits[i]));
        }
        grouped_chars(head);
        let front = number::grouped(head);
        assert forall|i: int| 0 <= i < number::grouped(digits).len() implies number::is_digit(
            #[trigger] number::grouped(digits)[i],
        ) || number::grouped(digits)[i] == ',' by {
            if i < front.len() {
                assert(number::grouped(digits)[i] == front[i]);
            } else if i > front.len() {
                let place = digits.len() - 3 + (i - front.len() - 1);
                assert(number::grouped(digits)[i] == digits[place]);
                assert(number::is_digit(digits[place]));
            }
        }
    } else {
        assert(number::is_digit(digits[0]));
    }
}

proof fn small_texts_without_digits()
    ensures
        number::only_digits("-"@) == Seq::<char>::empty(),
        number::only_digits("."@) == Seq::<char>::empty(),
        number::only_digits("%"@) == Seq::<char>::empty(),
        number::only_digits(Seq::<char>::empty()) == Seq::<char>::empty(),
{
    reveal_strlit("-");
    reveal_strlit(".");
    reveal_strlit("%");
    number::no_digit_kept('-');
    number::no_digit_kept('.');
    number::no_digit_kept('%');
    assert("-"@ == seq!['-']);
    assert("."@ == seq!['.']);
    assert("%"@ == seq!['%']);
    reveal(Seq::filter);
}

/// What people read of a number is what its field says that numbers stand for: an integer reads back
/// as it is, a timestamp shows its instant, a fixed-point number and a percentage show their decimal
/// places, and a dash stands exactly for the lowest integer of a signed field of such numbers. A text
/// is shown as it is.
pub proof fn shown_values_say_what_numbers_stand_for(
    field: FieldModel,
    value: ValueModel,
    fraction: Seq<char>,
)
    ensures
        ({
            let text = display_text(field, value, fraction);
            let scaled = field.semantic is FixedPoint || field.semantic is Percentage;
            let lowest = -(value::byte_range(field.length as nat) as int) / 2;
            let missing = scaled && field.field_type == FieldType::SignedInteger && 1
                <= field.length <= 16 && (value == ValueModel::Signed(lowest) || value
                == ValueModel::Unsigned(lowest));
            &&& missing ==> text == "-"@
            &&& field.semantic == FieldSemantic::Plain || !(value is Signed || value is Unsigned)
                ==> text == plain_text(value, fraction)
            &&& value matches ValueModel::Text(shown) ==> text == shown
            &&& field.semantic matches FieldSemantic::UnixTimestamp(unit) ==> (
            value matches ValueModel::Signed(number) ==> (calendar::timestamp_text(
                number,
                unit,
            ) matches Some(instant) ==> text == instant))
            &&& field.semantic matches FieldSemantic::UnixTimestamp(unit) ==> (
            value matches ValueModel::Unsigned(number) ==> (calendar::timestamp_text(
                number,
                unit,
            ) matches Some(instant) ==> text == instant))
            &&& field.semantic matches FieldSemantic::FixedPoint(points) ==> (
            value matches ValueModel::Signed(number) ==> (!missing && 1 <= field.length <= 16
                ==> text == fixed_point_text(number, points as nat, false)))
            &&& field.semantic matches FieldSemantic::FixedPoint(points) ==> (
            value matches ValueModel::Unsigned(number) ==> (number >= 0 ==> text
                == fixed_point_text(number, points as nat, false)))
            &&& field.semantic matches FieldSemantic::Percentage(points) ==> (
            value matches ValueModel::Signed(number) ==> (!missing && 1 <= field.length <= 16
                ==> text == fixed_point_text(number, points as nat, true)))
            &&& field.semantic matches FieldSemantic::Percentage(points) ==> (
            value matches ValueModel::Unsigned(number) ==> (number >= 0 ==> text
                == fixed_point_text(number, points as nat, true)))
        }),
{
    byte_range_is_positive(field.length as nat);
}

proof fn byte_range_is_positive(count: nat)
    ensures
        value::byte_range(count) > 0,
        count > 0 ==> value::byte_range(count) >= 256,
    decreases count,
{
    if count > 0 {
        byte_range_is_positive((count - 1) as nat);
    }
}

/// A column is as wide as its name, and as every string that an index in it can point to.
pub proof fn columns_hold_names_and_strings(
    field: FieldModel,
    strings: Seq<Seq<char>>,
    index: int,
)
    requires
        0 <= index < strings.len(),
    ensures
        field.name.len() <= column_width(field, strings),
        field.field_type == FieldType::StringTableIndex && field.semantic == FieldSemantic::Plain
            ==> strings[index].len() <= column_width(field, strings),
        field.field_type == FieldType::Utf8String && field.semantic == FieldSemantic::Plain
            ==> field.length <= column_width(field, strings),
{
    longest_is_longest(strings, index);
}

proof fn longest_is_longest(values: Seq<Seq<char>>, index: int)
    requires
        0 <= index < values.len(),
    ensures
        values[index].len() <= longest(values, 0),
    decreases values.len(),
{
    if index < values.len() - 1 {
        longest_is_longest(values.drop_last(), index);
    }
}

} // verus!

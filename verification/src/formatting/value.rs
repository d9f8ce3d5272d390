//! Field values taken out of the bytes of a frame.

use crate::error::{Error, Failure};
use crate::schema::{Field, FieldModel, FieldType, Schema, SchemaModel};
use crate::text;
use vstd::prelude::*;
use vstd::slice::slice_subrange;
use vstd::string::*;

verus! {

/// The value of one field. Floating-point numbers are held by their bits, a decimal number by its
/// sixteen bytes read as one little-endian number.
#[derive(Debug, PartialEq)]
pub enum FieldValue {
    Signed(i64),
    Unsigned(u64),
    Float32(u32),
    Float64(u64),
    Decimal(u128),
    String(String),
}

/// The value of one field, with a text as characters.
pub enum ValueModel {
    Signed(int),
    Unsigned(int),
    Float32(u32),
    Float64(u64),
    Decimal(u128),
    Text(Seq<char>),
}

impl View for FieldValue {
    type V = ValueModel;

    open spec fn view(&self) -> ValueModel {
        match *self {
            FieldValue::Signed(value) => ValueModel::Signed(value as int),
            FieldValue::Unsigned(value) => ValueModel::Unsigned(value as int),
            FieldValue::Float32(bits) => ValueModel::Float32(bits),
            FieldValue::Float64(bits) => ValueModel::Float64(bits),
            FieldValue::Decimal(bits) => ValueModel::Decimal(bits),
            FieldValue::String(value) => ValueModel::Text(value@),
        }
    }
}

/// The models of a list of values.
pub open spec fn value_models(values: Seq<FieldValue>) -> Seq<ValueModel> {
    values.map_values(|value: FieldValue| value@)
}

/// How many numbers `count` bytes can hold.
pub open spec fn byte_range(count: nat) -> nat
    decreases count,
{
    if count == 0 {
        1
    } else {
        256 * byte_range((count - 1) as nat)
    }
}

/// The number that bytes hold, the lowest first.
pub open spec fn little_endian(bytes: Seq<u8>) -> nat
    decreases bytes.len(),
{
    if bytes.len() == 0 {
        0
    } else {
        bytes[0] as nat + 256 * little_endian(bytes.skip(1))
    }
}

/// The integer that bytes hold in two's complement, the lowest first.
pub open spec fn twos_complement(bytes: Seq<u8>) -> int {
    let value = little_endian(bytes);
    if 2 * value >= byte_range(bytes.len()) {
        value - byte_range(bytes.len())
    } else {
        value as int
    }
}

/// The bytes of a number, the lowest first.
pub open spec fn bytes_of(value: nat, count: nat) -> Seq<u8>
    decreases count,
{
    if count == 0 {
        Seq::empty()
    } else {
        seq![(value % 256) as u8] + bytes_of(value / 256, (count - 1) as nat)
    }
}

/// The bytes of an integer in two's complement, the lowest first.
pub open spec fn integer_bytes(value: int, count: nat) -> Seq<u8> {
    bytes_of(if value < 0 { (value + byte_range(count)) as nat } else { value as nat }, count)
}

/// Whether integers of this many bytes are known.
pub open spec fn is_integer_width(width: nat) -> bool {
    width == 1 || width == 2 || width == 4 || width == 8
}

/// The text that bytes hold where they are read as UTF-8 whatever they are.
pub uninterp spec fn lossy_text(bytes: Seq<u8>) -> Seq<char>;

/// `String::from_utf8_lossy` reads bytes as UTF-8. What it returns follows from the bytes alone,
/// and is exactly what they encode where they are valid UTF-8.
#[verifier::external_body]
fn utf8_lossy(bytes: &[u8]) -> (result: String)
    ensures
        result@ == lossy_text(bytes@),
        vstd::utf8::valid_utf8(bytes@) ==> result@ == vstd::utf8::decode_utf8(bytes@),
{
    String::from_utf8_lossy(bytes).into_owned()
}

/// The text of a fixed-width field: padding at its end is not part of it.
pub open spec fn fixed_text(bytes: Seq<u8>) -> Seq<char> {
    text::without_trailing_space(text::without_trailing(lossy_text(bytes), '\0'))
}

/// The value of a field of a frame, or why it has none.
pub open spec fn field_value(field: FieldModel, strings: Seq<Seq<char>>, frame: Seq<u8>) -> Result<
    ValueModel,
    Failure,
> {
    let start = field.offset as int;
    let end = start + field.length;
    let bytes = frame.subrange(start, end);
    if end > frame.len() {
        Err(Failure::InvalidFieldSlice(field.name))
    } else {
        match field.field_type {
            FieldType::SignedInteger => if is_integer_width(bytes.len()) {
                Ok(ValueModel::Signed(twos_complement(bytes)))
            } else {
                Err(Failure::InvalidIntegerWidth(field.length as usize))
            },
            FieldType::UnsignedInteger => if is_integer_width(bytes.len()) {
                Ok(ValueModel::Unsigned(little_endian(bytes) as int))
            } else {
                Err(Failure::InvalidIntegerWidth(field.length as usize))
            },
            FieldType::FloatingPoint => if bytes.len() == 4 {
                Ok(ValueModel::Float32(little_endian(bytes) as u32))
            } else if bytes.len() == 8 {
                Ok(ValueModel::Float64(little_endian(bytes) as u64))
            } else if bytes.len() == 16 {
                Ok(ValueModel::Decimal(little_endian(bytes) as u128))
            } else {
                Err(Failure::InvalidFieldSlice(field.name))
            },
            FieldType::Utf8String => Ok(ValueModel::Text(fixed_text(bytes))),
            FieldType::StringTableIndex => if !is_integer_width(bytes.len()) {
                Err(Failure::InvalidIntegerWidth(field.length as usize))
            } else if little_endian(bytes) < strings.len() {
                Ok(ValueModel::Text(strings[little_endian(bytes) as int]))
            } else {
                Err(Failure::InvalidStringTableIndex(little_endian(bytes) as u64))
            },
        }
    }
}

/// The values of fields of a frame in their order, or why the first that has none has none.
pub open spec fn field_values(
    fields: Seq<FieldModel>,
    strings: Seq<Seq<char>>,
    frame: Seq<u8>,
) -> Result<Seq<ValueModel>, Failure>
    decreases fields.len(),
{
    if fields.len() == 0 {
        Ok(Seq::empty())
    } else {
        match field_values(fields.drop_last(), strings, frame) {
            Err(failure) => Err(failure),
            Ok(values) => match field_value(fields.last(), strings, frame) {
                Err(failure) => Err(failure),
                Ok(value) => Ok(values.push(value)),
            },
        }
    }
}

/// The values of the fields of a frame, or why it cannot be taken apart.
pub open spec fn frame_values(
    schema: SchemaModel,
    strings: Seq<Seq<char>>,
    frame: Seq<u8>,
) -> Result<Seq<ValueModel>, Failure> {
    if frame.len() != schema.frame_len {
        Err(
            Failure::InvalidFrameLength {
                expected: schema.frame_len,
                actual: frame.len() as usize,
            },
        )
    } else {
        field_values(schema.fields, strings, frame)
    }
}

/// Bytes hold less than their range.
pub proof fn little_endian_in_range(bytes: Seq<u8>)
    ensures
        little_endian(bytes) < byte_range(bytes.len()),
    decreases bytes.len(),
{
    if bytes.len() > 0 {
        little_endian_in_range(bytes.skip(1));
    }
}

/// Reading the bytes of a number gives the number back.
pub proof fn bytes_read_back(value: nat, count: nat)
    requires
        value < byte_range(count),
    ensures
        bytes_of(value, count).len() == count,
        little_endian(bytes_of(value, count)) == value,
    decreases count,
{
    if count > 0 {
        bytes_read_back(value / 256, (count - 1) as nat);
        let bytes = bytes_of(value, count);
        assert(bytes.skip(1) == bytes_of(value / 256, (count - 1) as nat));
    }
}

/// Reading the bytes of an integer gives the integer back.
pub proof fn integer_bytes_read_back(value: int, count: nat)
    requires
        count > 0,
        -(byte_range(count) as int) <= 2 * value < byte_range(count),
    ensures
        integer_bytes(value, count).len() == count,
        twos_complement(integer_bytes(value, count)) == value,
{
    let stored: nat = if value < 0 { (value + byte_range(count)) as nat } else { value as nat };
    bytes_read_back(stored, count);
}

/// The sizes of the integers that fields hold.
pub proof fn byte_ranges()
    ensures
        byte_range(1) == 256,
        byte_range(2) == 65_536,
        byte_range(4) == 4_294_967_296,
        byte_range(8) == 18_446_744_073_709_551_616,
        byte_range(16) == 340_282_366_920_938_463_463_374_607_431_768_211_456,
{
    reveal_with_fuel(byte_range, 17);
}

proof fn byte_range_grows(count: nat)
    requires
        count <= 16,
    ensures
        byte_range(count) <= 340_282_366_920_938_463_463_374_607_431_768_211_456,
    decreases 16 - count,
{
    byte_ranges();
    if count < 16 {
        byte_range_grows(count + 1);
    }
}

/// The number that bytes hold, the lowest first.
pub fn read_little_endian(bytes: &[u8]) -> (result: u128)
    requires
        bytes@.len() <= 16,
    ensures
        result == little_endian(bytes@),
        result < byte_range(bytes@.len()),
{
    let mut value: u128 = 0;
    let mut i: usize = bytes.len();
    assert(bytes@.skip(i as int) == Seq::<u8>::empty());
    while i > 0
        invariant
            i <= bytes@.len() <= 16,
            value == little_endian(bytes@.skip(i as int)),
        decreases i,
    {
        i = i - 1;
        let ghost rest = bytes@.skip(i as int);
        assert(rest.skip(1) == bytes@.skip(i as int + 1));
        assert(rest[0] == bytes@[i as int]);
        proof {
            little_endian_in_range(rest);
            byte_range_grows(rest.len());
        }
        value = value * 256 + bytes[i] as u128;
    }
    assert(bytes@.skip(0) == bytes@);
    proof {
        little_endian_in_range(bytes@);
    }
    value
}

/// The signed integer that one, two, four or eight bytes hold.
pub fn decode_signed(bytes: &[u8]) -> (result: Result<i64, Error>)
    ensures
        match result {
            Ok(value) => is_integer_width(bytes@.len()) && value == twos_complement(bytes@),
            Err(error) => !is_integer_width(bytes@.len()) && error@ == Failure::InvalidIntegerWidth(
                bytes@.len() as usize,
            ),
        },
{
    let width: usize = bytes.len();
    if width != 1 && width != 2 && width != 4 && width != 8 {
        return Err(Error::InvalidIntegerWidth(width));
    }
    proof {
        byte_ranges();
    }
    let range: i128 = if width == 1 {
        256
    } else if width == 2 {
        65_536
    } else if width == 4 {
        4_294_967_296
    } else {
        18_446_744_073_709_551_616
    };
    let value: i128 = read_little_endian(bytes) as i128;
    if 2 * value >= range {
        Ok((value - range) as i64)
    } else {
        Ok(value as i64)
    }
}

/// The unsigned integer that one, two, four or eight bytes hold.
pub fn decode_unsigned(bytes: &[u8]) -> (result: Result<u64, Error>)
    ensures
        match result {
            Ok(value) => is_integer_width(bytes@.len()) && value == little_endian(bytes@),
            Err(error) => !is_integer_width(bytes@.len()) && error@ == Failure::InvalidIntegerWidth(
                bytes@.len() as usize,
            ),
        },
{
    let width: usize = bytes.len();
    if width != 1 && width != 2 && width != 4 && width != 8 {
        return Err(Error::InvalidIntegerWidth(width));
    }
    proof {
        byte_ranges();
    }
    Ok(read_little_endian(bytes) as u64)
}

/// The text of a fixed-width field.
pub fn decode_text(bytes: &[u8]) -> (result: String)
    ensures
        result@ == fixed_text(bytes@),
{
    let decoded: String = utf8_lossy(bytes);
    let chars: Vec<char> = text::chars_of(decoded.as_str());
    let content: usize = text::end_without(&chars, chars.len(), '\0');
    let end: usize = text::end_without_space(&chars, content);
    let mut result: String = String::new();
    text::push_chars(&mut result, &chars, 0, end);
    assert(chars@.take(chars@.len() as int) == chars@);
    assert(chars@.subrange(0, end as int) == chars@.take(end as int));
    assert(result@ == chars@.take(end as int));
    result
}

/// Takes frames of one schema apart.
pub struct FrameDecoder<'a> {
    pub schema: &'a Schema,
    pub string_table: &'a [String],
}

impl<'a> FrameDecoder<'a> {
    /// A decoder for frames of a schema whose string indexes point into a table.
    pub fn new(schema: &'a Schema, string_table: &'a [String]) -> (result: Self)
        ensures
            *result.schema == *schema,
            result.string_table@ == string_table@,
    {
        FrameDecoder { schema, string_table }
    }

    /// The values of the fields of a frame, or why it cannot be taken apart.
    pub fn decode(&self, frame: &[u8]) -> (result: Result<Vec<FieldValue>, Error>)
        ensures
            match result {
                Ok(values) => frame_values(self.schema@, text::views(self.string_table@), frame@)
                    == Ok::<Seq<ValueModel>, Failure>(value_models(values@)),
                Err(error) => frame_values(self.schema@, text::views(self.string_table@), frame@)
                    == Err::<Seq<ValueModel>, Failure>(error@),
            },
    {
        match self.schema.validate_frame_len(frame.len()) {
            Ok(_) => {},
            Err(error) => {
                return Err(error);
            },
        }
        let ghost fields = self.schema@.fields;
        let ghost strings = text::views(self.string_table@);
        let mut values: Vec<FieldValue> = Vec::new();
        let mut i: usize = 0;
        assert(fields.take(0) == Seq::<FieldModel>::empty());
        assert(value_models(values@) == Seq::<ValueModel>::empty());
        while i < self.schema.fields.len()
            invariant
                i <= self.schema.fields@.len(),
                frame@.len() == self.schema@.frame_len,
                fields == self.schema@.fields,
                strings == text::views(self.string_table@),
                field_values(fields.take(i as int), strings, frame@) == Ok::<
                    Seq<ValueModel>,
                    Failure,
                >(value_models(values@)),
            decreases self.schema.fields@.len() - i,
        {
            let ghost taken = fields.take(i as int + 1);
            let ghost before = value_models(values@);
            assert(taken.drop_last() == fields.take(i as int));
            assert(taken.last() == self.schema.fields@[i as int]@);
            match self.decode_field(&self.schema.fields[i], frame) {
                Ok(value) => {
                    values.push(value);
                    assert(value_models(values@) == before.push(value@));
                },
                Err(error) => {
                    proof {
                        assert(field_values(taken, strings, frame@) == Err::<
                            Seq<ValueModel>,
                            Failure,
                        >(error@));
                        failure_stays(fields, strings, frame@, i as int + 1);
                    }
                    return Err(error);
                },
            }
            i = i + 1;
        }
        assert(fields.take(i as int) == fields);
        Ok(values)
    }

    fn decode_field(&self, field: &Field, frame: &[u8]) -> (result: Result<FieldValue, Error>)
        ensures
            match result {
                Ok(value) => field_value(field@, text::views(self.string_table@), frame@) == Ok::<
                    ValueModel,
                    Failure,
                >(value@),
                Err(error) => field_value(field@, text::views(self.string_table@), frame@) == Err::<
                    ValueModel,
                    Failure,
                >(error@),
            },
    {
        let start: u64 = field.offset as u64;
        let end: u64 = start + field.length as u64;
        if end > frame.len() as u64 {
            return Err(Error::InvalidFieldSlice(field.name.clone()));
        }
        let bytes: &[u8] = slice_subrange(frame, start as usize, end as usize);
        proof {
            byte_ranges();
        }
        match field.field_type {
            FieldType::SignedInteger => match decode_signed(bytes) {
                Ok(value) => Ok(FieldValue::Signed(value)),
                Err(error) => Err(error),
            },
            FieldType::UnsignedInteger => match decode_unsigned(bytes) {
                Ok(value) => Ok(FieldValue::Unsigned(value)),
                Err(error) => Err(error),
            },
            FieldType::FloatingPoint => if bytes.len() == 4 {
                Ok(FieldValue::Float32(read_little_endian(bytes) as u32))
            } else if bytes.len() == 8 {
                Ok(FieldValue::Float64(read_little_endian(bytes) as u64))
            } else if bytes.len() == 16 {
                Ok(FieldValue::Decimal(read_little_endian(bytes)))
            } else {
                Err(Error::InvalidFieldSlice(field.name.clone()))
            },
            FieldType::Utf8String => Ok(FieldValue::String(decode_text(bytes))),
            FieldType::StringTableIndex => match decode_unsigned(bytes) {
                Ok(index) => if index < self.string_table.len() as u64 {
                    Ok(FieldValue::String(self.string_table[index as usize].clone()))
                } else {
                    Err(Error::InvalidStringTableIndex(index))
                },
                Err(error) => Err(error),
            },
        }
    }
}

proof fn failure_stays(
    fields: Seq<FieldModel>,
    strings: Seq<Seq<char>>,
    frame: Seq<u8>,
    count: int,
)
    requires
        0 <= count <= fields.len(),
        field_values(fields.take(count), strings, frame) is Err,
    ensures
        field_values(fields, strings, frame) == field_values(fields.take(count), strings, frame),
    decreases fields.len() - count,
{
    if count < fields.len() {
        let next = fields.take(count + 1);
        assert(next.drop_last() == fields.take(count));
        failure_stays(fields, strings, frame, count + 1);
    } else {
        assert(fields.take(count) == fields);
    }
}

/// What is stored in a field is what decoding the field gives: a signed field holds an integer in
/// two's complement, an unsigned one a number, a string index the text that it points to, and a
/// floating-point field its bits, whatever lies in front of the field and behind it.
pub proof fn stored_values_are_decoded(
    field: FieldModel,
    strings: Seq<Seq<char>>,
    front: Seq<u8>,
    back: Seq<u8>,
    number: int,
)
    requires
        field.offset == front.len(),
        field.length > 0,
    ensures
        ({
            let width = field.length as nat;
            let range = byte_range(width);
            let signed = field_value(field, strings, front + integer_bytes(number, width) + back);
            let stored = field_value(field, strings, front + bytes_of(number as nat, width) + back);
            &&& field.field_type == FieldType::SignedInteger && is_integer_width(width) && -range
                <= 2 * number < range ==> signed == Ok::<ValueModel, Failure>(
                ValueModel::Signed(number),
            )
            &&& field.field_type == FieldType::UnsignedInteger && is_integer_width(width) && 0
                <= number < range ==> stored == Ok::<ValueModel, Failure>(
                ValueModel::Unsigned(number),
            )
            &&& field.field_type == FieldType::StringTableIndex && is_integer_width(width) && 0
                <= number < range && number < strings.len() ==> stored == Ok::<ValueModel, Failure>(
                ValueModel::Text(strings[number]),
            )
            &&& field.field_type == FieldType::StringTableIndex && is_integer_width(width)
                && strings.len() <= number < range ==> stored == Err::<ValueModel, Failure>(
                Failure::InvalidStringTableIndex(number as u64),
            )
            &&& field.field_type == FieldType::FloatingPoint && width == 4 && 0 <= number < range
                ==> stored == Ok::<ValueModel, Failure>(ValueModel::Float32(number as u32))
            &&& field.field_type == FieldType::FloatingPoint && width == 8 && 0 <= number < range
                ==> stored == Ok::<ValueModel, Failure>(ValueModel::Float64(number as u64))
            &&& field.field_type == FieldType::FloatingPoint && width == 16 && 0 <= number < range
                ==> stored == Ok::<ValueModel, Failure>(ValueModel::Decimal(number as u128))
        }),
{
    let width = field.length as nat;
    let range = byte_range(width);
    if -range <= 2 * number < range {
        integer_bytes_read_back(number, width);
        let bytes = integer_bytes(number, width);
        let end = front.len() + field.length;
        assert((front + bytes + back).subrange(front.len() as int, end) == bytes);
    }
    if 0 <= number < range {
        bytes_read_back(number as nat, width);
        let bytes = bytes_of(number as nat, width);
        let end = front.len() + field.length;
        assert((front + bytes + back).subrange(front.len() as int, end) == bytes);
    }
}

/// A field is what its own bytes are: where it lies in a frame and what lies around it do not matter.
pub proof fn a_field_is_its_own_bytes(field: FieldModel, strings: Seq<Seq<char>>, frame: Seq<u8>)
    requires
        field.offset + field.length <= frame.len(),
    ensures
        field_value(field, strings, frame) == field_value(
            FieldModel { offset: 0, ..field },
            strings,
            frame.subrange(field.offset as int, field.offset + field.length),
        ),
{
    let bytes = frame.subrange(field.offset as int, field.offset + field.length);
    assert(bytes.subrange(0, field.length as int) == bytes);
}

/// The values of a frame are those of its fields, each in the place of its field; a frame that has
/// values is as long as its schema says.
pub proof fn frames_are_decoded_field_by_field(
    schema: SchemaModel,
    strings: Seq<Seq<char>>,
    frame: Seq<u8>,
)
    ensures
        frame_values(schema, strings, frame) is Ok <==> frame.len() == schema.frame_len && forall|
            i: int,
        |
            0 <= i < schema.fields.len() ==> field_value(
                #[trigger] schema.fields[i],
                strings,
                frame,
            ) is Ok,
        frame_values(schema, strings, frame) matches Ok(values) ==> values.len()
            == schema.fields.len() && forall|i: int|
            0 <= i < schema.fields.len() ==> field_value(
                #[trigger] schema.fields[i],
                strings,
                frame,
            ) == Ok::<ValueModel, Failure>(values[i]),
{
    fields_are_decoded_in_turn(schema.fields, strings, frame);
}

proof fn fields_are_decoded_in_turn(
    fields: Seq<FieldModel>,
    strings: Seq<Seq<char>>,
    frame: Seq<u8>,
)
    ensures
        field_values(fields, strings, frame) is Ok <==> forall|i: int|
            0 <= i < fields.len() ==> field_value(#[trigger] fields[i], strings, frame) is Ok,
        field_values(fields, strings, frame) matches Ok(values) ==> values.len() == fields.len()
            && forall|i: int|
            0 <= i < fields.len() ==> field_value(#[trigger] fields[i], strings, frame) == Ok::<
                ValueModel,
                Failure,
            >(values[i]),
    decreases fields.len(),
{
    if fields.len() > 0 {
        let before = fields.drop_last();
        fields_are_decoded_in_turn(before, strings, frame);
        assert forall|i: int| 0 <= i < before.len() implies #[trigger] before[i] == fields[i] by {}
        if field_values(fields, strings, frame) is Ok {
            assert forall|i: int| 0 <= i < fields.len() implies field_value(
                #[trigger] fields[i],
                strings,
                frame,
            ) is Ok by {
                if i < before.len() {
                    assert(before[i] == fields[i]);
                }
            }
            let values = field_values(fields, strings, frame)->Ok_0;
            assert forall|i: int| 0 <= i < fields.len() implies field_value(
                #[trigger] fields[i],
                strings,
                frame,
            ) == Ok::<ValueModel, Failure>(values[i]) by {
                if i < before.len() {
                    assert(before[i] == fields[i]);
                }
            }
        } else if forall|i: int|
            0 <= i < fields.len() ==> field_value(#[trigger] fields[i], strings, frame) is Ok {
            assert(field_value(fields[fields.len() - 1], strings, frame) is Ok);
            assert forall|i: int| 0 <= i < before.len() implies field_value(
                #[trigger] before[i],
                strings,
                frame,
            ) is Ok by {
                assert(field_value(fields[i], strings, frame) is Ok);
            }
        }
    }
}

/// What the numbers of fields stand for does not change their values: frames have the same values
/// under compatible schemas.
pub proof fn compatible_schemas_decode_alike(
    left: SchemaModel,
    right: SchemaModel,
    strings: Seq<Seq<char>>,
    frame: Seq<u8>,
)
    requires
        left.compatible(right),
    ensures
        frame_values(left, strings, frame) == frame_values(right, strings, frame),
{
    like_fields_decode_alike(left.fields, right.fields, strings, frame);
}

proof fn like_fields_decode_alike(
    left: Seq<FieldModel>,
    right: Seq<FieldModel>,
    strings: Seq<Seq<char>>,
    frame: Seq<u8>,
)
    requires
        left.len() == right.len(),
        forall|i: int| 0 <= i < left.len() ==> (#[trigger] left[i]).same_layout(right[i]),
    ensures
        field_values(left, strings, frame) == field_values(right, strings, frame),
    decreases left.len(),
{
    if left.len() > 0 {
        assert forall|i: int| 0 <= i < left.drop_last().len() implies (
        #[trigger] left.drop_last()[i]).same_layout(right.drop_last()[i]) by {
            assert(left[i].same_layout(right[i]));
        }
        like_fields_decode_alike(left.drop_last(), right.drop_last(), strings, frame);
        assert(left[left.len() - 1].same_layout(right[left.len() - 1]));
    }
}

/// The text of a field is the start of what its bytes hold: only zeros and white space are taken off
/// its end, and no white space is left there.
pub proof fn texts_lose_only_their_filling(bytes: Seq<u8>, index: int)
    ensures
        fixed_text(bytes).is_prefix_of(lossy_text(bytes)),
        fixed_text(bytes).len() <= index < lossy_text(bytes).len() ==> lossy_text(bytes)[index]
            == '\0' || text::is_space(lossy_text(bytes)[index]),
        fixed_text(bytes).len() > 0 ==> !text::is_space(fixed_text(bytes).last()),
{
    let whole = lossy_text(bytes);
    let front = text::without_trailing(whole, '\0');
    text::trailing_copies_go(whole, '\0');
    text::trailing_space_goes(front);
    let filling = text::repeated('\0', (whole.len() - front.len()) as nat);
    assert(front == whole.take(front.len() as int)) by {
        assert(whole == front + filling);
    }
    if fixed_text(bytes).len() <= index < whole.len() {
        if index < front.len() {
            assert(front[index] == whole[index]);
        } else {
            assert(whole[index] == filling[index - front.len()]);
        }
    }
}

} // verus!

//! Keys: what frames are ordered by.

use crate::error::{Error, Failure};
use crate::formatting::value;
use crate::number;
use crate::schema::{Field, FieldModel, FieldType};
use vstd::prelude::*;
use vstd::string::*;

verus! {

/// The kinds of keys.
#[derive(Debug, Clone, Copy, PartialEq, Eq, Structural)]
pub enum KeyType {
    I8,
    I16,
    I32,
    I64,
    U8,
    U16,
    U32,
    U64,
    F32,
    F64,
    Decimal,
}

/// A key. A floating-point key is held by its bits, a decimal one by its digits.
#[derive(Debug, Clone, Copy, PartialEq, Eq, Structural)]
pub enum Key {
    I8(i8),
    I16(i16),
    I32(i32),
    I64(i64),
    U8(u8),
    U16(u16),
    U32(u32),
    U64(u64),
    F32(u32),
    F64(u64),
    /// `mantissa` divided by ten to the power of `scale`.
    Decimal { mantissa: i128, scale: u8 },
}

/// The largest scale of a decimal key.
pub const MAX_SCALE: u8 = 28;

/// Where floating-point bits stand in the order of the numbers that they denote.
///
/// The bits of a positive number order like the number. Those of a negative one order the other
/// way round once the sign is off. Both zeros stand at the same place, and patterns that denote
/// no number stand beyond the infinity of their sign.
pub open spec fn float_rank(bits: int, sign: int) -> int {
    if bits >= sign {
        -(bits - sign)
    } else {
        bits
    }
}

impl KeyType {
    /// Whether keys of this kind are integers.
    pub open spec fn is_whole(self) -> bool {
        !(self == KeyType::F32 || self == KeyType::F64 || self == KeyType::Decimal)
    }

    /// The smallest integer of this kind.
    pub open spec fn lowest(self) -> int {
        match self {
            KeyType::I8 => i8::MIN as int,
            KeyType::I16 => i16::MIN as int,
            KeyType::I32 => i32::MIN as int,
            KeyType::I64 => i64::MIN as int,
            _ => 0,
        }
    }

    /// The largest integer of this kind.
    pub open spec fn highest(self) -> int {
        match self {
            KeyType::I8 => i8::MAX as int,
            KeyType::I16 => i16::MAX as int,
            KeyType::I32 => i32::MAX as int,
            KeyType::I64 => i64::MAX as int,
            KeyType::U8 => u8::MAX as int,
            KeyType::U16 => u16::MAX as int,
            KeyType::U32 => u32::MAX as int,
            KeyType::U64 => u64::MAX as int,
            _ => 0,
        }
    }

    /// The integer that a text denotes as a key of this kind.
    pub open spec fn read(self, text: Seq<char>) -> Option<int> {
        let value = match self {
            KeyType::I8 | KeyType::I16 | KeyType::I32 | KeyType::I64 => number::integer_value(text),
            _ => number::natural_value(text),
        };
        match value {
            Some(value) => if self.lowest() <= value <= self.highest() {
                Some(value)
            } else {
                None
            },
            None => None,
        }
    }
}

impl Key {
    /// The kind of the key.
    pub open spec fn kind(self) -> KeyType {
        match self {
            Key::I8(_) => KeyType::I8,
            Key::I16(_) => KeyType::I16,
            Key::I32(_) => KeyType::I32,
            Key::I64(_) => KeyType::I64,
            Key::U8(_) => KeyType::U8,
            Key::U16(_) => KeyType::U16,
            Key::U32(_) => KeyType::U32,
            Key::U64(_) => KeyType::U64,
            Key::F32(_) => KeyType::F32,
            Key::F64(_) => KeyType::F64,
            Key::Decimal { .. } => KeyType::Decimal,
        }
    }

    /// The integer key of a kind.
    pub open spec fn whole(kind: KeyType, value: int) -> Key {
        match kind {
            KeyType::I8 => Key::I8(value as i8),
            KeyType::I16 => Key::I16(value as i16),
            KeyType::I32 => Key::I32(value as i32),
            KeyType::I64 => Key::I64(value as i64),
            KeyType::U8 => Key::U8(value as u8),
            KeyType::U16 => Key::U16(value as u16),
            KeyType::U32 => Key::U32(value as u32),
            _ => Key::U64(value as u64),
        }
    }

    /// The integer key that a text denotes, or that it denotes none.
    pub open spec fn read(kind: KeyType, text: Seq<char>) -> Result<Key, Failure> {
        match kind.read(text) {
            Some(value) => Ok(Key::whole(kind, value)),
            None => Err(Failure::InvalidKey(text)),
        }
    }

    /// Where the key stands among the keys of its kind.
    pub open spec fn rank(self) -> int {
        match self {
            Key::I8(value) => value as int,
            Key::I16(value) => value as int,
            Key::I32(value) => value as int,
            Key::I64(value) => value as int,
            Key::U8(value) => value as int,
            Key::U16(value) => value as int,
            Key::U32(value) => value as int,
            Key::U64(value) => value as int,
            Key::F32(bits) => float_rank(bits as int, 0x8000_0000),
            Key::F64(bits) => float_rank(bits as int, 0x8000_0000_0000_0000),
            Key::Decimal { mantissa, scale } => mantissa * number::power_of_ten(
                (MAX_SCALE - scale) as nat,
            ),
        }
    }

    /// Whether the key is one that a file can hold.
    pub open spec fn valid(self) -> bool {
        self matches Key::Decimal { mantissa, scale } ==> scale <= MAX_SCALE
    }

    /// Whether this key stands in front of another one of its kind.
    pub open spec fn precedes(self, other: Key) -> bool {
        self.rank() < other.rank()
    }
}

/// The kind of the keys in a field, if it can hold keys.
pub open spec fn key_type_of(field: FieldModel) -> Option<KeyType> {
    match (field.field_type, field.length) {
        (FieldType::SignedInteger, 1) => Some(KeyType::I8),
        (FieldType::SignedInteger, 2) => Some(KeyType::I16),
        (FieldType::SignedInteger, 4) => Some(KeyType::I32),
        (FieldType::SignedInteger, 8) => Some(KeyType::I64),
        (FieldType::UnsignedInteger, 1) => Some(KeyType::U8),
        (FieldType::UnsignedInteger, 2) => Some(KeyType::U16),
        (FieldType::UnsignedInteger, 4) => Some(KeyType::U32),
        (FieldType::UnsignedInteger, 8) => Some(KeyType::U64),
        (FieldType::FloatingPoint, 4) => Some(KeyType::F32),
        (FieldType::FloatingPoint, 8) => Some(KeyType::F64),
        (FieldType::FloatingPoint, 16) => Some(KeyType::Decimal),
        _ => None,
    }
}

impl KeyType {
    /// The kind of the keys in a field, or that it can hold none.
    pub fn from_field(field: &Field) -> (result: Result<Self, Error>)
        ensures
            match result {
                Ok(kind) => key_type_of(field@) == Some(kind),
                Err(error) => key_type_of(field@) is None && error@ == Failure::InvalidKeyField(
                    field@.name,
                ),
            },
    {
        match (field.field_type, field.length) {
            (FieldType::SignedInteger, 1) => Ok(KeyType::I8),
            (FieldType::SignedInteger, 2) => Ok(KeyType::I16),
            (FieldType::SignedInteger, 4) => Ok(KeyType::I32),
            (FieldType::SignedInteger, 8) => Ok(KeyType::I64),
            (FieldType::UnsignedInteger, 1) => Ok(KeyType::U8),
            (FieldType::UnsignedInteger, 2) => Ok(KeyType::U16),
            (FieldType::UnsignedInteger, 4) => Ok(KeyType::U32),
            (FieldType::UnsignedInteger, 8) => Ok(KeyType::U64),
            (FieldType::FloatingPoint, 4) => Ok(KeyType::F32),
            (FieldType::FloatingPoint, 8) => Ok(KeyType::F64),
            (FieldType::FloatingPoint, 16) => Ok(KeyType::Decimal),
            _ => Err(Error::InvalidKeyField(field.name.clone())),
        }
    }

    /// Whether keys of this kind are integers.
    pub fn is_integer(self) -> (result: bool)
        ensures
            result == self.is_whole(),
    {
        !(self == KeyType::F32 || self == KeyType::F64 || self == KeyType::Decimal)
    }
}

impl Key {
    /// The integer key that a text denotes: decimal digits, with a sign in front where the kind
    /// has one, within the range of the kind.
    pub fn parse(key_type: KeyType, value: &str) -> (result: Result<Self, Error>)
        requires
            key_type.is_whole(),
        ensures
            match result {
                Ok(key) => Key::read(key_type, value@) == Ok::<Key, Failure>(key) && key.kind()
                    == key_type && key_type.read(value@) == Some(key.rank()),
                Err(error) => Key::read(key_type, value@) == Err::<Key, Failure>(error@),
            },
    {
        let key: Option<Key> = match key_type {
            KeyType::I8 => match number::read_integer(value, i8::MIN as i128, i8::MAX as i128) {
                Some(value) => Some(Key::I8(value as i8)),
                None => None,
            },
            KeyType::I16 => match number::read_integer(value, i16::MIN as i128, i16::MAX as i128) {
                Some(value) => Some(Key::I16(value as i16)),
                None => None,
            },
            KeyType::I32 => match number::read_integer(value, i32::MIN as i128, i32::MAX as i128) {
                Some(value) => Some(Key::I32(value as i32)),
                None => None,
            },
            KeyType::I64 => match number::read_integer(value, i64::MIN as i128, i64::MAX as i128) {
                Some(value) => Some(Key::I64(value as i64)),
                None => None,
            },
            KeyType::U8 => match number::read_natural(value, u8::MAX as i128) {
                Some(value) => Some(Key::U8(value as u8)),
                None => None,
            },
            KeyType::U16 => match number::read_natural(value, u16::MAX as i128) {
                Some(value) => Some(Key::U16(value as u16)),
                None => None,
            },
            KeyType::U32 => match number::read_natural(value, u32::MAX as i128) {
                Some(value) => Some(Key::U32(value as u32)),
                None => None,
            },
            KeyType::U64 => match number::read_natural(value, u64::MAX as i128) {
                Some(value) => Some(Key::U64(value as u64)),
                None => None,
            },
            _ => None,
        };
        match key {
            Some(key) => Ok(key),
            None => Err(Error::InvalidKey(value.to_owned())),
        }
    }

    /// The kind of the key.
    pub fn key_type(&self) -> (result: KeyType)
        ensures
            result == self.kind(),
    {
        match *self {
            Key::I8(_) => KeyType::I8,
            Key::I16(_) => KeyType::I16,
            Key::I32(_) => KeyType::I32,
            Key::I64(_) => KeyType::I64,
            Key::U8(_) => KeyType::U8,
            Key::U16(_) => KeyType::U16,
            Key::U32(_) => KeyType::U32,
            Key::U64(_) => KeyType::U64,
            Key::F32(_) => KeyType::F32,
            Key::F64(_) => KeyType::F64,
            Key::Decimal { .. } => KeyType::Decimal,
        }
    }

    /// Whether the key has no more decimal places than keys can have.
    pub fn is_valid(&self) -> (result: bool)
        ensures
            result == self.valid(),
    {
        match *self {
            Key::Decimal { mantissa: _, scale } => scale <= MAX_SCALE,
            _ => true,
        }
    }

    /// Whether this key stands in front of another one of its kind.
    pub fn is_before(&self, other: &Key) -> (result: bool)
        requires
            self.kind() == other.kind(),
            self.valid(),
            other.valid(),
        ensures
            result == self.precedes(*other),
    {
        match (*self, *other) {
            (Key::I8(left), Key::I8(right)) => left < right,
            (Key::I16(left), Key::I16(right)) => left < right,
            (Key::I32(left), Key::I32(right)) => left < right,
            (Key::I64(left), Key::I64(right)) => left < right,
            (Key::U8(left), Key::U8(right)) => left < right,
            (Key::U16(left), Key::U16(right)) => left < right,
            (Key::U32(left), Key::U32(right)) => left < right,
            (Key::U64(left), Key::U64(right)) => left < right,
            (Key::F32(left), Key::F32(right)) => float_position(left as u64, 0x8000_0000)
                < float_position(right as u64, 0x8000_0000),
            (Key::F64(left), Key::F64(right)) => float_position(left, 0x8000_0000_0000_0000)
                < float_position(right, 0x8000_0000_0000_0000),
            (
                Key::Decimal { mantissa: left, scale: left_scale },
                Key::Decimal { mantissa: right, scale: right_scale },
            ) => decimal_is_less(left, left_scale, right, right_scale),
            _ => false,
        }
    }
}

fn float_position(bits: u64, sign: u64) -> (result: i128)
    ensures
        result == float_rank(bits as int, sign as int),
{
    if bits >= sign {
        -((bits - sign) as i128)
    } else {
        bits as i128
    }
}

fn decimal_is_less(left: i128, left_scale: u8, right: i128, right_scale: u8) -> (result: bool)
    requires
        left_scale <= MAX_SCALE,
        right_scale <= MAX_SCALE,
    ensures
        result == (left * number::power_of_ten((MAX_SCALE - left_scale) as nat) < right
            * number::power_of_ten((MAX_SCALE - right_scale) as nat)),
{
    let ghost l = number::power_of_ten((MAX_SCALE - left_scale) as nat) as int;
    let ghost r = number::power_of_ten((MAX_SCALE - right_scale) as nat) as int;
    proof {
        number::power_is_positive((MAX_SCALE - left_scale) as nat);
        number::power_is_positive((MAX_SCALE - right_scale) as nat);
    }
    if left < 0 && right >= 0 {
        assert(left * l < 0) by (nonlinear_arith)
            requires
                left < 0,
                l > 0,
        ;
        assert(right * r >= 0) by (nonlinear_arith)
            requires
                right >= 0,
                r > 0,
        ;
        true
    } else if left >= 0 && right < 0 {
        assert(left * l >= 0) by (nonlinear_arith)
            requires
                left >= 0,
                l > 0,
        ;
        assert(right * r < 0) by (nonlinear_arith)
            requires
                right < 0,
                r > 0,
        ;
        false
    } else if left < 0 {
        let a: u128 = number::magnitude(left);
        let b: u128 = number::magnitude(right);
        assert(a * l == -(left * l)) by (nonlinear_arith)
            requires
                a == -left,
        ;
        assert(b * r == -(right * r)) by (nonlinear_arith)
            requires
                b == -right,
        ;
        magnitude_is_less(b, right_scale, a, left_scale)
    } else {
        magnitude_is_less(left as u128, left_scale, right as u128, right_scale)
    }
}

/// Compares whole parts first, then the rest brought to one scale, so that nothing overflows.
fn magnitude_is_less(left: u128, left_scale: u8, right: u128, right_scale: u8) -> (result: bool)
    requires
        left_scale <= MAX_SCALE,
        right_scale <= MAX_SCALE,
    ensures
        result == (left * number::power_of_ten((MAX_SCALE - left_scale) as nat) < right
            * number::power_of_ten((MAX_SCALE - right_scale) as nat)),
{
    let left_unit: u128 = number::ten_to(left_scale);
    let right_unit: u128 = number::ten_to(right_scale);
    let left_step: u128 = number::ten_to(MAX_SCALE - left_scale);
    let right_step: u128 = number::ten_to(MAX_SCALE - right_scale);
    let whole: u128 = number::ten_to(MAX_SCALE);
    proof {
        number::power_splits(left_scale as nat, (MAX_SCALE - left_scale) as nat);
        number::power_splits(right_scale as nat, (MAX_SCALE - right_scale) as nat);
        scaled_parts(left as int, left_unit as int, left_step as int);
        scaled_parts(right as int, right_unit as int, right_step as int);
    }
    let left_whole: u128 = left / left_unit;
    let right_whole: u128 = right / right_unit;
    let left_rest: u128 = (left % left_unit) * left_step;
    let right_rest: u128 = (right % right_unit) * right_step;
    let ghost l = left * left_step;
    let ghost r = right * right_step;
    assert(l == left_whole * whole + left_rest && r == right_whole * whole + right_rest);
    proof {
        parts_decide(
            left_whole as int,
            left_rest as int,
            right_whole as int,
            right_rest as int,
            whole as int,
        );
    }
    left_whole < right_whole || (left_whole == right_whole && left_rest < right_rest)
}

proof fn scaled_parts(value: int, unit: int, step: int)
    by (nonlinear_arith)
    requires
        value >= 0,
        unit > 0,
        step > 0,
    ensures
        value * step == (value / unit) * (unit * step) + (value % unit) * step,
        0 <= (value % unit) * step < unit * step,
{
    let q = value / unit;
    let rest = value % unit;
    assert(value == q * unit + rest);
    assert(value * step == (q * unit + rest) * step);
    assert((q * unit + rest) * step == q * (unit * step) + rest * step);
    assert(rest * step <= (unit - 1) * step);
}

proof fn parts_decide(a: int, x: int, b: int, y: int, whole: int)
    by (nonlinear_arith)
    requires
        0 <= x < whole,
        0 <= y < whole,
    ensures
        (a * whole + x < b * whole + y) <==> (a < b || (a == b && x < y)),
{
    if a < b {
        assert(b * whole >= (a + 1) * whole);
        assert((a + 1) * whole == a * whole + whole);
    } else if b < a {
        assert(a * whole >= (b + 1) * whole);
        assert((b + 1) * whole == b * whole + whole);
    }
}

/// The text of an integer key.
pub open spec fn key_text(key: Key) -> Seq<char> {
    number::integer_text(key.rank())
}

/// What stands for a key in TOML: the digits of an integer key, and what stands for `rendered` for
/// a key that is no integer.
pub open spec fn key_value_text(key: Key, rendered: Seq<char>) -> Seq<char> {
    if key.kind().is_whole() {
        key_text(key)
    } else {
        number::toml_float(rendered)
    }
}

/// What stands for a key in TOML: the digits of an integer key, and what stands for `rendered` for
/// a key that is no integer.
pub fn key_value(key: Key, rendered: &str) -> (result: String)
    ensures
        result@ == key_value_text(key, rendered@),
{
    match key {
        Key::I8(value) => number::integer_string(value as i128),
        Key::I16(value) => number::integer_string(value as i128),
        Key::I32(value) => number::integer_string(value as i128),
        Key::I64(value) => number::integer_string(value as i128),
        Key::U8(value) => number::integer_string(value as i128),
        Key::U16(value) => number::integer_string(value as i128),
        Key::U32(value) => number::integer_string(value as i128),
        Key::U64(value) => number::integer_string(value as i128),
        Key::F32(_) | Key::F64(_) | Key::Decimal { .. } => number::toml_float_word(rendered),
    }
}

/// The text of an integer key names that key and no other.
pub proof fn key_reads_back(key: Key)
    requires
        key.kind().is_whole(),
    ensures
        key.kind().read(key_text(key)) == Some(key.rank()),
{
    number::integer_reads_back(key.rank());
    if key.rank() >= 0 {
        number::decimal_is_digits(key.rank() as nat);
        assert(number::is_digit(number::decimal(key.rank() as nat)[0]));
    }
}

/// The bits of floating-point keys stand in the order of their numbers: the larger the bits of a
/// number that is not negative, the later it stands, and turning the sign of a number turns its
/// place round.
pub proof fn floats_stand_in_order(first: int, second: int, sign: int)
    requires
        0 <= first < sign,
        0 <= second < sign,
    ensures
        float_rank(first, sign) < float_rank(second, sign) <==> first < second,
        float_rank(first + sign, sign) == -float_rank(first, sign),
        float_rank(first + sign, sign) <= 0 <= float_rank(first, sign),
{
}

/// Decimal keys stand in the order of their numbers: at one scale by their digits, and one more
/// decimal place with a zero in it changes nothing.
pub proof fn decimals_stand_in_order(first: i128, second: i128, longer: i128, scale: u8)
    requires
        scale < MAX_SCALE,
        longer == first * 10,
    ensures
        (Key::Decimal { mantissa: first, scale }).precedes(
            (Key::Decimal { mantissa: second, scale }),
        ) <==> first < second,
        (Key::Decimal { mantissa: longer, scale: (scale + 1) as u8 }).rank() == (
        Key::Decimal { mantissa: first, scale }).rank(),
{
    let step = number::power_of_ten((MAX_SCALE - scale) as nat) as int;
    let less = number::power_of_ten((MAX_SCALE - scale - 1) as nat) as int;
    number::power_is_positive((MAX_SCALE - scale) as nat);
    number::power_splits(1, (MAX_SCALE - scale - 1) as nat);
    assert(number::power_of_ten(1) == 10) by {
        reveal_with_fuel(number::power_of_ten, 2);
    }
    assert(step == 10 * less);
    assert((first * 10) * less == first * (10 * less)) by (nonlinear_arith);
    assert(first * step < second * step <==> first < second) by (nonlinear_arith)
        requires
            step > 0,
    ;
}

/// The keys in a field are as wide as the field, and signed exactly where the field is: an integer
/// field holds every key of its kind and no other number.
pub proof fn keys_are_as_wide_as_their_field(field: FieldModel)
    ensures
        key_type_of(field) is Some <==> (field.is_integer() && value::is_integer_width(
            field.length as nat,
        )) || (field.field_type == FieldType::FloatingPoint && (field.length == 4 || field.length
            == 8 || field.length == 16)),
        key_type_of(field) matches Some(kind) ==> {
            &&& kind.is_whole() <==> field.is_integer()
            &&& kind.is_whole() ==> kind.highest() - kind.lowest() + 1 == value::byte_range(
                field.length as nat,
            )
            &&& kind.is_whole() && field.field_type == FieldType::UnsignedInteger ==> kind.lowest()
                == 0
            &&& kind.is_whole() && field.field_type == FieldType::SignedInteger ==> kind.lowest()
                == -kind.highest() - 1
            &&& !kind.is_whole() ==> (kind == KeyType::F32 <==> field.length == 4)
            &&& !kind.is_whole() ==> (kind == KeyType::F64 <==> field.length == 8)
            &&& !kind.is_whole() ==> (kind == KeyType::Decimal <==> field.length == 16)
        },
{
    value::byte_ranges();
}

/// An integer key reads back from its text, and stands where its number does.
pub proof fn keys_read_back(key: Key)
    requires
        key.kind().is_whole(),
    ensures
        Key::read(key.kind(), key_text(key)) == Ok::<Key, Failure>(key),
        Key::whole(key.kind(), key.rank()) == key,
        key.kind().lowest() <= key.rank() <= key.kind().highest(),
        number::integer_value(key_value_text(key, Seq::empty())) == Some(key.rank()),
{
    key_reads_back(key);
    number::integer_reads_back(key.rank());
}

} // verus!

//! Frames and their fields.

use crate::error::{Error, Failure};
use crate::text;
use vstd::prelude::*;
use vstd::string::*;

verus! {

/// What the bytes of a field are.
#[derive(Debug, Clone, Copy, PartialEq, Eq, Structural)]
pub enum FieldType {
    SignedInteger,
    UnsignedInteger,
    FloatingPoint,
    Utf8String,
    StringTableIndex,
}

/// What one step of a timestamp is.
#[derive(Debug, Clone, Copy, PartialEq, Eq, Structural)]
pub enum TimestampUnit {
    Seconds,
    Milliseconds,
    Microseconds,
    Nanoseconds,
}

/// What the numbers in an integer field stand for.
#[derive(Debug, Clone, Copy, PartialEq, Eq, Structural)]
pub enum FieldSemantic {
    /// The number itself.
    Plain,
    /// The time since the start of 1970, in UTC.
    UnixTimestamp(TimestampUnit),
    /// The number divided by this power of ten.
    FixedPoint(u8),
    /// The number divided by this power of ten, in percent.
    Percentage(u8),
}

/// One field of a frame.
#[derive(Debug)]
pub struct Field {
    pub name: String,
    pub field_type: FieldType,
    pub length: u16,
    pub offset: u32,
    pub semantic: FieldSemantic,
}

/// A field, with its name as characters.
pub struct FieldModel {
    pub name: Seq<char>,
    pub field_type: FieldType,
    pub length: u16,
    pub offset: u32,
    pub semantic: FieldSemantic,
}

impl View for Field {
    type V = FieldModel;

    open spec fn view(&self) -> FieldModel {
        FieldModel {
            name: self.name@,
            field_type: self.field_type,
            length: self.length,
            offset: self.offset,
            semantic: self.semantic,
        }
    }
}

/// The fields that make up a frame, and which of them frames are ordered by.
#[derive(Debug)]
pub struct Schema {
    pub frame_type: String,
    pub fields: Vec<Field>,
    pub key_field_index: usize,
    pub frame_len: u32,
}

/// A schema, with its names as characters.
#[verifier::ext_equal]
pub struct SchemaModel {
    pub frame_type: Seq<char>,
    pub fields: Seq<FieldModel>,
    pub key_field_index: usize,
    pub frame_len: u32,
}

impl View for Schema {
    type V = SchemaModel;

    open spec fn view(&self) -> SchemaModel {
        SchemaModel {
            frame_type: self.frame_type@,
            fields: field_models(self.fields@),
            key_field_index: self.key_field_index,
            frame_len: self.frame_len,
        }
    }
}

/// The models of a list of fields.
pub open spec fn field_models(fields: Seq<Field>) -> Seq<FieldModel> {
    fields.map_values(|field: Field| field@)
}

impl FieldSemantic {
    /// How many digits stand behind the decimal point.
    pub open spec fn decimals(self) -> nat {
        match self {
            FieldSemantic::FixedPoint(points) | FieldSemantic::Percentage(points) => points as nat,
            _ => 0,
        }
    }
}

impl FieldModel {
    /// Whether the field holds integers.
    pub open spec fn is_integer(self) -> bool {
        self.field_type == FieldType::SignedInteger || self.field_type == FieldType::UnsignedInteger
    }

    /// Whether two fields are the same but for what their numbers stand for.
    pub open spec fn same_layout(self, other: FieldModel) -> bool {
        &&& self.name == other.name
        &&& self.field_type == other.field_type
        &&& self.length == other.length
        &&& self.offset == other.offset
    }
}

impl SchemaModel {
    /// Whether the decimal places of every field can be computed with.
    pub open spec fn decimals_fit(self) -> bool {
        forall|i: int|
            0 <= i < self.fields.len() ==> (#[trigger] self.fields[i]).semantic.decimals() <= 38
    }

    /// Whether frames of one schema are frames of the other: all is the same but for what
    /// the numbers in the fields stand for.
    pub open spec fn compatible(self, other: SchemaModel) -> bool {
        &&& self.frame_type == other.frame_type
        &&& self.key_field_index == other.key_field_index
        &&& self.frame_len == other.frame_len
        &&& self.fields.len() == other.fields.len()
        &&& forall|i: int|
            0 <= i < self.fields.len() ==> (#[trigger] self.fields[i]).same_layout(other.fields[i])
    }

    /// How many fields say what their numbers stand for.
    pub open spec fn richness(self) -> nat {
        semantic_count(self.fields)
    }

    /// This schema with nothing said about what numbers stand for.
    pub open spec fn plain(self) -> SchemaModel {
        SchemaModel {
            fields: self.fields.map_values(
                |field: FieldModel| FieldModel { semantic: FieldSemantic::Plain, ..field },
            ),
            ..self
        }
    }
}

/// How many of the fields say what their numbers stand for.
pub open spec fn semantic_count(fields: Seq<FieldModel>) -> nat
    decreases fields.len(),
{
    if fields.len() == 0 {
        0
    } else {
        semantic_count(fields.drop_last()) + if fields.last().semantic != FieldSemantic::Plain {
            1nat
        } else {
            0nat
        }
    }
}

/// The bytes that fields take up, one behind the other.
pub open spec fn total_length(fields: Seq<FieldModel>) -> nat
    decreases fields.len(),
{
    if fields.len() == 0 {
        0
    } else {
        total_length(fields.drop_last()) + fields.last().length as nat
    }
}

/// The first field that gives numbers a meaning without holding integers.
pub open spec fn first_misplaced(fields: Seq<FieldModel>) -> Option<Seq<char>>
    decreases fields.len(),
{
    if fields.len() == 0 {
        None
    } else if fields[0].semantic != FieldSemantic::Plain && !fields[0].is_integer() {
        Some(fields[0].name)
    } else {
        first_misplaced(fields.skip(1))
    }
}

/// Why fields do not make up a schema, if they do not.
pub open spec fn schema_refusal(fields: Seq<FieldModel>, key_field_index: int) -> Option<
    Seq<char>,
> {
    if !(0 <= key_field_index < fields.len()) {
        Some("key field index is out of range"@)
    } else if let Some(name) = first_misplaced(fields) {
        Some("field '"@ + name + "' has a numeric semantic but is not an integer"@)
    } else if total_length(fields) > u32::MAX {
        Some("schema frame length overflow"@)
    } else {
        None
    }
}

impl Field {
    /// A field whose numbers, if it holds any, stand for themselves.
    pub fn new(name: &str, field_type: FieldType, length: u16, offset: u32) -> (result: Self)
        ensures
            result@ == (FieldModel {
                name: name@,
                field_type,
                length,
                offset,
                semantic: FieldSemantic::Plain,
            }),
    {
        Field {
            name: name.to_owned(),
            field_type,
            length,
            offset,
            semantic: FieldSemantic::Plain,
        }
    }

    /// The same field with its numbers standing for something else.
    pub fn with_semantic(self, semantic: FieldSemantic) -> (result: Self)
        ensures
            result@ == (FieldModel { semantic, ..self@ }),
    {
        Field {
            name: self.name,
            field_type: self.field_type,
            length: self.length,
            offset: self.offset,
            semantic,
        }
    }

    /// A copy of the field.
    pub fn copy(&self) -> (result: Self)
        ensures
            result@ == self@,
    {
        Field {
            name: self.name.clone(),
            field_type: self.field_type,
            length: self.length,
            offset: self.offset,
            semantic: self.semantic,
        }
    }

    /// Whether two fields are the same in all but what their numbers stand for.
    pub fn lies_like(&self, other: &Field) -> (result: bool)
        ensures
            result == self@.same_layout(other@),
    {
        text::same(self.name.as_str(), other.name.as_str()) && self.field_type == other.field_type
            && self.length == other.length && self.offset == other.offset
    }
}

/// Copies of a list of fields.
pub fn copy_fields(fields: &Vec<Field>) -> (result: Vec<Field>)
    ensures
        field_models(result@) == field_models(fields@),
{
    let mut result: Vec<Field> = Vec::new();
    let mut i: usize = 0;
    while i < fields.len()
        invariant
            i <= fields@.len(),
            result@.len() == i,
            forall|j: int| 0 <= j < i ==> (#[trigger] result@[j])@ == fields@[j]@,
        decreases fields@.len() - i,
    {
        result.push(fields[i].copy());
        i = i + 1;
    }
    assert(field_models(result@) == field_models(fields@));
    result
}

impl Schema {
    /// A schema of these fields, or why they make up none.
    pub fn new(frame_type: &str, fields: Vec<Field>, key_field_index: usize) -> (result: Result<
        Self,
        Error,
    >)
        ensures
            match result {
                Ok(schema) => {
                    &&& schema_refusal(field_models(fields@), key_field_index as int) is None
                    &&& schema@ == (SchemaModel {
                        frame_type: frame_type@,
                        fields: field_models(fields@),
                        key_field_index,
                        frame_len: total_length(field_models(fields@)) as u32,
                    })
                },
                Err(error) => schema_refusal(field_models(fields@), key_field_index as int) == Some(
                    error@->InvalidSchema_0,
                ) && error@ is InvalidSchema,
            },
    {
        let ghost models = field_models(fields@);
        if key_field_index >= fields.len() {
            return Err(Error::InvalidSchema("key field index is out of range".to_owned()));
        }
        let mut i: usize = 0;
        assert(models.skip(0) == models);
        while i < fields.len()
            invariant
                i <= fields@.len(),
                key_field_index < fields@.len(),
                models == field_models(fields@),
                first_misplaced(models) == first_misplaced(models.skip(i as int)),
            decreases fields@.len() - i,
        {
            let field: &Field = &fields[i];
            assert(models.skip(i as int)[0] == field@);
            assert(models.skip(i as int).skip(1) == models.skip(i as int + 1));
            if field.semantic != FieldSemantic::Plain && field.field_type
                != FieldType::SignedInteger && field.field_type != FieldType::UnsignedInteger {
                return Err(
                    Error::InvalidSchema(
                        text::concat3(
                            "field '",
                            field.name.as_str(),
                            "' has a numeric semantic but is not an integer",
                        ),
                    ),
                );
            }
            i = i + 1;
        }
        let mut frame_len: u32 = 0;
        let mut j: usize = 0;
        assert(models.take(0) == Seq::<FieldModel>::empty());
        while j < fields.len()
            invariant
                j <= fields@.len(),
                key_field_index < fields@.len(),
                models == field_models(fields@),
                first_misplaced(models) is None,
                frame_len == total_length(models.take(j as int)),
            decreases fields@.len() - j,
        {
            assert(models.take(j as int + 1).drop_last() == models.take(j as int));
            match frame_len.checked_add(fields[j].length as u32) {
                Some(sum) => {
                    frame_len = sum;
                },
                None => {
                    proof {
                        total_length_grows(models, j as int + 1);
                    }
                    return Err(Error::InvalidSchema("schema frame length overflow".to_owned()));
                },
            }
            j = j + 1;
        }
        assert(models.take(j as int) == models);
        Ok(Schema { frame_type: frame_type.to_owned(), fields, key_field_index, frame_len })
    }

    /// A copy of the schema.
    pub fn copy(&self) -> (result: Self)
        ensures
            result@ == self@,
    {
        Schema {
            frame_type: self.frame_type.clone(),
            fields: copy_fields(&self.fields),
            key_field_index: self.key_field_index,
            frame_len: self.frame_len,
        }
    }

    /// This schema with nothing said about what numbers stand for.
    pub fn without_semantics(&self) -> (result: Self)
        ensures
            result@ == self@.plain(),
    {
        let mut fields: Vec<Field> = Vec::new();
        let mut i: usize = 0;
        while i < self.fields.len()
            invariant
                i <= self.fields@.len(),
                fields@.len() == i,
                forall|j: int| 0 <= j < i ==> (#[trigger] fields@[j])@ == self@.plain().fields[j],
            decreases self.fields@.len() - i,
        {
            fields.push(self.fields[i].copy().with_semantic(FieldSemantic::Plain));
            i = i + 1;
        }
        assert(field_models(fields@) == self@.plain().fields);
        Schema {
            frame_type: self.frame_type.clone(),
            fields,
            key_field_index: self.key_field_index,
            frame_len: self.frame_len,
        }
    }

    /// Holds a frame to its length.
    pub fn validate_frame_len(&self, length: usize) -> (result: Result<(), Error>)
        ensures
            match result {
                Ok(_) => length == self.frame_len,
                Err(error) => length != self.frame_len && error@ == (Failure::InvalidFrameLength {
                    expected: self.frame_len,
                    actual: length,
                }),
            },
    {
        if length as u64 == self.frame_len as u64 {
            Ok(())
        } else {
            Err(Error::InvalidFrameLength { expected: self.frame_len, actual: length })
        }
    }

    /// Whether frames of one schema are frames of the other.
    pub fn is_compatible(&self, other: &Schema) -> (result: bool)
        ensures
            result == self@.compatible(other@),
    {
        if !text::same(self.frame_type.as_str(), other.frame_type.as_str())
            || self.key_field_index != other.key_field_index || self.frame_len != other.frame_len
            || self.fields.len() != other.fields.len() {
            return false;
        }
        let mut i: usize = 0;
        while i < self.fields.len()
            invariant
                i <= self.fields@.len() == other.fields@.len(),
                forall|j: int|
                    0 <= j < i ==> (#[trigger] self@.fields[j]).same_layout(other@.fields[j]),
            decreases self.fields@.len() - i,
        {
            if !self.fields[i].lies_like(&other.fields[i]) {
                assert(!self@.fields[i as int].same_layout(other@.fields[i as int]));
                return false;
            }
            i = i + 1;
        }
        true
    }

    /// Whether two schemas are the same in every respect.
    pub fn is_same(&self, other: &Schema) -> (result: bool)
        ensures
            result == (self@ == other@),
    {
        if !self.is_compatible(other) {
            return false;
        }
        let mut i: usize = 0;
        while i < self.fields.len()
            invariant
                i <= self.fields@.len() == other.fields@.len(),
                self@.compatible(other@),
                forall|j: int|
                    0 <= j < i ==> (#[trigger] self@.fields[j]).semantic
                        == other@.fields[j].semantic,
            decreases self.fields@.len() - i,
        {
            if self.fields[i].semantic != other.fields[i].semantic {
                assert(self@.fields[i as int] != other@.fields[i as int]);
                return false;
            }
            i = i + 1;
        }
        assert forall|j: int| 0 <= j < self@.fields.len() implies #[trigger] self@.fields[j]
            == other@.fields[j] by {
            assert(self@.fields[j].same_layout(other@.fields[j]));
        }
        assert(self@.fields == other@.fields);
        true
    }

    /// How many fields say what their numbers stand for.
    pub fn semantic_richness(&self) -> (result: usize)
        ensures
            result == self@.richness(),
    {
        let ghost models = self@.fields;
        let mut count: usize = 0;
        let mut i: usize = 0;
        assert(models.take(0) == Seq::<FieldModel>::empty());
        while i < self.fields.len()
            invariant
                i <= self.fields@.len(),
                models == self@.fields,
                count == semantic_count(models.take(i as int)),
                count <= i,
            decreases self.fields@.len() - i,
        {
            assert(models.take(i as int + 1).drop_last() == models.take(i as int));
            if self.fields[i].semantic != FieldSemantic::Plain {
                count = count + 1;
            }
            i = i + 1;
        }
        assert(models.take(i as int) == models);
        count
    }
}

proof fn total_length_grows(fields: Seq<FieldModel>, count: int)
    requires
        0 <= count <= fields.len(),
    ensures
        total_length(fields.take(count)) <= total_length(fields),
    decreases fields.len() - count,
{
    if count < fields.len() {
        total_length_grows(fields, count + 1);
        assert(fields.take(count + 1).drop_last() == fields.take(count));
    } else {
        assert(fields.take(count) == fields);
    }
}

/// Schemas are compatible exactly where they are the same once nothing is said about what
/// numbers stand for.
pub proof fn compatible_is_equality_of_layouts(left: SchemaModel, right: SchemaModel)
    ensures
        left.compatible(right) <==> left.plain() == right.plain(),
{
    let l = left.plain();
    let r = right.plain();
    if left.compatible(right) {
        assert forall|i: int| 0 <= i < l.fields.len() implies l.fields[i] == r.fields[i] by {
            assert(left.fields[i].same_layout(right.fields[i]));
        }
        assert(l.fields == r.fields);
    }
    if l == r {
        assert(l.fields.len() == left.fields.len());
        assert(r.fields.len() == right.fields.len());
        assert forall|i: int| 0 <= i < left.fields.len() implies (
        #[trigger] left.fields[i]).same_layout(right.fields[i]) by {
            assert(l.fields[i] == r.fields[i]);
        }
    }
}

/// Accepts a file whose schema is exactly the one that typed frames have.
pub fn ensure_schema(schema: &Schema, expected: &Schema) -> (result: Result<(), Error>)
    ensures
        result is Ok <==> schema@ == expected@,
        result matches Err(error) ==> error@ == Failure::SchemaMismatch,
{
    if schema.is_same(expected) {
        Ok(())
    } else {
        Err(Error::SchemaMismatch)
    }
}

/// The richness of a schema is the number of its fields that say what their numbers stand for: it is
/// zero exactly where nothing is said, and saying something in one more field raises it by one.
pub proof fn richness_counts_what_is_said(schema: SchemaModel, index: int, semantic: FieldSemantic)
    requires
        0 <= index < schema.fields.len(),
        schema.fields[index].semantic == FieldSemantic::Plain,
        semantic != FieldSemantic::Plain,
    ensures
        schema.richness() <= schema.fields.len(),
        schema.richness() == 0 <==> forall|i: int|
            0 <= i < schema.fields.len() ==> (#[trigger] schema.fields[i]).semantic
                == FieldSemantic::Plain,
        (SchemaModel {
            fields: schema.fields.update(
                index,
                FieldModel { semantic, ..schema.fields[index] },
            ),
            ..schema
        }).richness() == schema.richness() + 1,
{
    count_is_zero_for_plain(schema.fields);
    count_of_one_more(schema.fields, index, FieldModel { semantic, ..schema.fields[index] });
}

proof fn count_is_zero_for_plain(fields: Seq<FieldModel>)
    ensures
        semantic_count(fields) <= fields.len(),
        semantic_count(fields) == 0 <==> forall|i: int|
            0 <= i < fields.len() ==> (#[trigger] fields[i]).semantic == FieldSemantic::Plain,
    decreases fields.len(),
{
    if fields.len() > 0 {
        let shorter = fields.drop_last();
        count_is_zero_for_plain(shorter);
        assert(forall|i: int| 0 <= i < shorter.len() ==> #[trigger] shorter[i] == fields[i]);
        assert(forall|i: int| 0 <= i < shorter.len() ==> #[trigger] fields[i] == shorter[i]);
        assert(fields[fields.len() - 1] == fields.last());
    }
}

proof fn count_of_one_more(fields: Seq<FieldModel>, index: int, field: FieldModel)
    requires
        0 <= index < fields.len(),
        fields[index].semantic == FieldSemantic::Plain,
        field.semantic != FieldSemantic::Plain,
    ensures
        semantic_count(fields.update(index, field)) == semantic_count(fields) + 1,
    decreases fields.len(),
{
    let changed = fields.update(index, field);
    if index == fields.len() - 1 {
        assert(changed.drop_last() == fields.drop_last());
    } else {
        assert(changed.drop_last() == fields.drop_last().update(index, field));
        count_of_one_more(fields.drop_last(), index, field);
    }
}

/// A schema without what its numbers stand for has the same fields at the same places, none of which
/// says anything.
pub proof fn plain_schemas_say_nothing(schema: SchemaModel)
    ensures
        schema.plain().compatible(schema),
        schema.plain().richness() == 0,
        schema.plain().plain() == schema.plain(),
        schema.richness() == 0 ==> schema.plain() == schema,
{
    let plain = schema.plain();
    count_is_zero_for_plain(plain.fields);
    count_is_zero_for_plain(schema.fields);
    assert(plain.plain().fields =~= plain.fields);
    if schema.richness() == 0 {
        assert forall|i: int| 0 <= i < schema.fields.len() implies plain.fields[i]
            == schema.fields[i] by {}
        assert(plain.fields =~= schema.fields);
    }
}

/// Compatibility is an equivalence.
pub proof fn compatibility_is_an_equivalence(
    first: SchemaModel,
    second: SchemaModel,
    third: SchemaModel,
)
    ensures
        first.compatible(first),
        first.compatible(second) ==> second.compatible(first),
        first.compatible(second) && second.compatible(third) ==> first.compatible(third),
{
    compatible_is_equality_of_layouts(first, first);
    compatible_is_equality_of_layouts(first, second);
    compatible_is_equality_of_layouts(second, first);
    compatible_is_equality_of_layouts(second, third);
    compatible_is_equality_of_layouts(first, third);
}

/// Fields make up a schema exactly if one of them is the key, only integers stand for something
/// other than themselves, and a frame is no longer than a file can say. A misplaced meaning is told
/// by the name of its field.
pub proof fn schemas_are_refused_for_cause(fields: Seq<FieldModel>, key_field_index: int)
    ensures
        schema_refusal(fields, key_field_index) is None <==> {
            &&& 0 <= key_field_index < fields.len()
            &&& total_length(fields) <= u32::MAX
            &&& forall|i: int|
                0 <= i < fields.len() ==> (#[trigger] fields[i]).semantic == FieldSemantic::Plain
                    || fields[i].field_type == FieldType::SignedInteger || fields[i].field_type
                    == FieldType::UnsignedInteger
        },
        first_misplaced(fields) matches Some(name) ==> exists|i: int|
            0 <= i < fields.len() && (#[trigger] fields[i]).name == name && fields[i].semantic
                != FieldSemantic::Plain && !fields[i].is_integer(),
{
    misplaced_is_found(fields);
}

proof fn misplaced_is_found(fields: Seq<FieldModel>)
    ensures
        first_misplaced(fields) is None <==> forall|i: int|
            0 <= i < fields.len() ==> (#[trigger] fields[i]).semantic == FieldSemantic::Plain
                || fields[i].is_integer(),
        first_misplaced(fields) matches Some(name) ==> exists|i: int|
            0 <= i < fields.len() && (#[trigger] fields[i]).name == name && fields[i].semantic
                != FieldSemantic::Plain && !fields[i].is_integer(),
    decreases fields.len(),
{
    if fields.len() > 0 {
        let rest = fields.skip(1);
        misplaced_is_found(rest);
        assert(forall|i: int| 0 <= i < rest.len() ==> #[trigger] rest[i] == fields[i + 1]);
        assert(forall|i: int| 1 <= i < fields.len() ==> #[trigger] fields[i] == rest[i - 1]);
    }
}

/// A frame is as long as its fields together: the length of one field is its own, and the lengths of
/// fields behind each other add up.
pub proof fn lengths_add_up(front: Seq<FieldModel>, back: Seq<FieldModel>, field: FieldModel)
    ensures
        total_length(seq![field]) == field.length,
        total_length(front + back) == total_length(front) + total_length(back),
    decreases back.len(),
{
    assert(seq![field].drop_last() == Seq::<FieldModel>::empty());
    reveal_with_fuel(total_length, 2);
    if back.len() == 0 {
        assert(front + back == front);
    } else {
        assert((front + back).drop_last() == front + back.drop_last());
        lengths_add_up(front, back.drop_last(), field);
    }
}

} // verus!

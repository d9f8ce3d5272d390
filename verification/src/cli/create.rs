//! New files: the schema that a command line spells out, and the title.

use crate::cli::inspect;
use crate::error::Failure;
use crate::number;
use crate::schema;
use crate::schema::{Field, FieldModel, FieldSemantic, FieldType, Schema, SchemaModel};
use crate::text;
use crate::toml::TomlWriter;
use vstd::prelude::*;
use vstd::string::*;

verus! {

/// The field type that a word stands for.
pub open spec fn field_type_of(word: Seq<char>) -> Option<FieldType> {
    if word == "i"@ || word == "int"@ || word == "signed"@ || word == "signed-integer"@ {
        Some(FieldType::SignedInteger)
    } else if word == "u"@ || word == "uint"@ || word == "unsigned"@ || word
        == "unsigned-integer"@ {
        Some(FieldType::UnsignedInteger)
    } else if word == "f"@ || word == "float"@ || word == "floating"@ || word
        == "floating-point"@ {
        Some(FieldType::FloatingPoint)
    } else if word == "utf8"@ || word == "utf8-string"@ || word == "string"@ {
        Some(FieldType::Utf8String)
    } else if word == "string-index"@ || word == "string-table-index"@ || word == "stridx"@ {
        Some(FieldType::StringTableIndex)
    } else {
        None
    }
}

/// What is said of a word that stands for no field type.
pub open spec fn unsupported_type(word: Seq<char>) -> Seq<char> {
    "unsupported field type '"@ + word + "'"@
}

/// The field type that a word stands for.
pub fn parse_field_type(value: &str) -> (result: Result<FieldType, String>)
    ensures
        match result {
            Ok(field_type) => field_type_of(value@) == Some(field_type),
            Err(message) => field_type_of(value@) is None && message@ == unsupported_type(value@),
        },
{
    if text::same(value, "i") || text::same(value, "int") || text::same(value, "signed")
        || text::same(value, "signed-integer") {
        Ok(FieldType::SignedInteger)
    } else if text::same(value, "u") || text::same(value, "uint") || text::same(value, "unsigned")
        || text::same(value, "unsigned-integer") {
        Ok(FieldType::UnsignedInteger)
    } else if text::same(value, "f") || text::same(value, "float") || text::same(value, "floating")
        || text::same(value, "floating-point") {
        Ok(FieldType::FloatingPoint)
    } else if text::same(value, "utf8") || text::same(value, "utf8-string") || text::same(
        value,
        "string",
    ) {
        Ok(FieldType::Utf8String)
    } else if text::same(value, "string-index") || text::same(value, "string-table-index")
        || text::same(value, "stridx") {
        Ok(FieldType::StringTableIndex)
    } else {
        Err(text::concat3("unsupported field type '", value, "'"))
    }
}

/// The field that `name:type:length` spells out, or why it spells out none.
pub open spec fn field_of(value: Seq<char>, offset: u32) -> Result<FieldModel, Seq<char>> {
    let parts = text::pieces(value, ':');
    let length = number::natural_value(parts[2]);
    if parts[0].len() == 0 || parts.len() < 2 {
        Err("--field must use name:type:length"@)
    } else if field_type_of(parts[1]) is None {
        Err(unsupported_type(parts[1]))
    } else if parts.len() < 3 {
        Err("--field must use name:type:length"@)
    } else if length is None || length->0 > u16::MAX {
        Err("invalid field length in '"@ + value + "'"@)
    } else if parts.len() > 3 {
        Err("--field must use name:type:length"@)
    } else if length->0 == 0 {
        Err("field '"@ + parts[0] + "' length must be greater than zero"@)
    } else {
        Ok(
            FieldModel {
                name: parts[0],
                field_type: field_type_of(parts[1])->0,
                length: length->0 as u16,
                offset,
                semantic: FieldSemantic::Plain,
            },
        )
    }
}

/// The fields that a command line spells out, one behind the other, or why one cannot be had.
pub open spec fn fields_of(values: Seq<Seq<char>>) -> Result<Seq<FieldModel>, Seq<char>>
    decreases values.len(),
{
    if values.len() == 0 {
        Ok(Seq::empty())
    } else {
        match fields_of(values.drop_last()) {
            Err(message) => Err(message),
            Ok(fields) => match field_of(values.last(), schema::total_length(fields) as u32) {
                Err(message) => Err(message),
                Ok(field) => if schema::total_length(fields) + field.length > u32::MAX {
                    Err("schema frame length overflow"@)
                } else {
                    Ok(fields.push(field))
                },
            },
        }
    }
}

/// The schema that a command line spells out, or why it spells out none.
pub open spec fn created_schema(
    frame_type: Option<Seq<char>>,
    values: Seq<Seq<char>>,
    key_field_index: usize,
) -> Result<SchemaModel, Seq<char>> {
    match (frame_type, fields_of(values)) {
        (None, _) => Err("--frame-type is required when --template is omitted"@),
        (Some(frame_type), fields) => if values.len() == 0 {
            Err("at least one --field is required when --template is omitted"@)
        } else {
            match fields {
                Err(message) => Err(message),
                Ok(fields) => match schema::schema_refusal(fields, key_field_index as int) {
                    Some(reason) => Err(Failure::InvalidSchema(reason).words()),
                    None => Ok(
                        SchemaModel {
                            frame_type,
                            fields,
                            key_field_index,
                            frame_len: schema::total_length(fields) as u32,
                        },
                    ),
                },
            }
        },
    }
}

/// Reads a field that is spelled out as `name:type:length`.
pub fn parse_field(value: &str, offset: u32) -> (result: Result<Field, String>)
    ensures
        match result {
            Ok(field) => field_of(value@, offset) == Ok::<FieldModel, Seq<char>>(field@),
            Err(message) => field_of(value@, offset) == Err::<FieldModel, Seq<char>>(message@),
        },
{
    let parts: Vec<String> = text::split(value, ':');
    let ghost pieces = text::pieces(value@, ':');
    assert(pieces == text::views(parts@));
    assert(pieces.len() > 0);
    assert(pieces[0] == parts@[0]@);
    if parts[0].as_str().unicode_len() == 0 || parts.len() < 2 {
        return Err("--field must use name:type:length".to_owned());
    }
    assert(pieces[1] == parts@[1]@);
    let field_type: FieldType = match parse_field_type(parts[1].as_str()) {
        Ok(field_type) => field_type,
        Err(message) => {
            return Err(message);
        },
    };
    if parts.len() < 3 {
        return Err("--field must use name:type:length".to_owned());
    }
    assert(pieces[2] == parts@[2]@);
    let length: u16 = match number::read_natural(parts[2].as_str(), 65_535) {
        Some(length) => length as u16,
        None => {
            return Err(text::concat3("invalid field length in '", value, "'"));
        },
    };
    if parts.len() > 3 {
        return Err("--field must use name:type:length".to_owned());
    }
    if length == 0 {
        return Err(
            text::concat3("field '", parts[0].as_str(), "' length must be greater than zero"),
        );
    }
    Ok(Field::new(parts[0].as_str(), field_type, length, offset))
}

proof fn fields_error_stays(values: Seq<Seq<char>>, count: int)
    requires
        0 <= count <= values.len(),
        fields_of(values.take(count)) is Err,
    ensures
        fields_of(values) == fields_of(values.take(count)),
    decreases values.len() - count,
{
    if count < values.len() {
        assert(values.take(count + 1).drop_last() == values.take(count));
        fields_error_stays(values, count + 1);
    } else {
        assert(values.take(count) == values);
    }
}

/// The schema that a command line spells out, or why it spells out none.
pub fn schema_from_create_args(
    frame_type: Option<&str>,
    fields: &[String],
    key_field_index: usize,
) -> (result: Result<Schema, String>)
    ensures
        ({
            let asked = match frame_type {
                Some(name) => Some(name@),
                None => None,
            };
            match result {
                Ok(schema) => created_schema(asked, text::views(fields@), key_field_index) == Ok::<
                    SchemaModel,
                    Seq<char>,
                >(schema@),
                Err(message) => created_schema(asked, text::views(fields@), key_field_index)
                    == Err::<SchemaModel, Seq<char>>(message@),
            }
        }),
{
    let ghost values = text::views(fields@);
    let name: &str = match frame_type {
        Some(name) => name,
        None => {
            return Err("--frame-type is required when --template is omitted".to_owned());
        },
    };
    if fields.len() == 0 {
        return Err("at least one --field is required when --template is omitted".to_owned());
    }
    let mut parsed: Vec<Field> = Vec::new();
    let mut offset: u32 = 0;
    let mut i: usize = 0;
    assert(values.take(0) == Seq::<Seq<char>>::empty());
    assert(schema::field_models(parsed@) == Seq::<FieldModel>::empty());
    while i < fields.len()
        invariant
            i <= fields@.len(),
            fields@.len() > 0,
            frame_type == Some(name),
            values == text::views(fields@),
            fields_of(values.take(i as int)) == Ok::<Seq<FieldModel>, Seq<char>>(
                schema::field_models(parsed@),
            ),
            offset == schema::total_length(schema::field_models(parsed@)),
        decreases fields@.len() - i,
    {
        let ghost before = schema::field_models(parsed@);
        assert(values.take(i as int + 1).drop_last() == values.take(i as int));
        assert(values.take(i as int + 1).last() == fields@[i as int]@);
        let field: Field = match parse_field(fields[i].as_str(), offset) {
            Ok(field) => field,
            Err(message) => {
                proof {
                    fields_error_stays(values, i as int + 1);
                }
                return Err(message);
            },
        };
        let next: u32 = match offset.checked_add(field.length as u32) {
            Some(next) => next,
            None => {
                proof {
                    fields_error_stays(values, i as int + 1);
                }
                return Err("schema frame length overflow".to_owned());
            },
        };
        parsed.push(field);
        offset = next;
        i = i + 1;
        assert(schema::field_models(parsed@) == before.push(field@));
        assert(before.push(field@).drop_last() == before);
    }
    assert(values.take(i as int) == values);
    match Schema::new(name, parsed, key_field_index) {
        Ok(schema) => Ok(schema),
        Err(error) => Err(error.message()),
    }
}

/// The schema that a command line spells out is made of fields without gaps between them: each
/// starts where the one before it ends, and the first at the start of the frame.
pub proof fn created_fields_are_packed(values: Seq<Seq<char>>, index: int)
    requires
        fields_of(values) is Ok,
        0 <= index < values.len(),
    ensures
        fields_of(values)->Ok_0.len() == values.len(),
        fields_of(values)->Ok_0[index].offset == schema::total_length(
            fields_of(values)->Ok_0.take(index),
        ),
        fields_of(values)->Ok_0[index].length > 0,
    decreases values.len(),
{
    let fields = fields_of(values)->Ok_0;
    let before = fields_of(values.drop_last())->Ok_0;
    if values.len() > 1 {
        created_fields_are_packed(
            values.drop_last(),
            if index < values.len() - 1 {
                index
            } else {
                0
            },
        );
    }
    assert(fields.drop_last() == before);
    if index < values.len() - 1 {
        assert(fields.take(index) == before.take(index));
    } else {
        assert(fields.take(index) == before);
    }
}

/// The title of a new file: the one that was asked for, or that of the template, or the stem of the
/// name of the file.
pub fn created_title(asked: Option<String>, template: Option<String>, stem: Option<String>) -> (result:
    String)
    ensures
        result@ == match (asked, template, stem) {
            (Some(title), _, _) => title@,
            (None, Some(title), _) => title@,
            (None, None, Some(stem)) => stem@,
            (None, None, None) => "FWOB"@,
        },
{
    match (asked, template, stem) {
        (Some(title), _, _) => title,
        (None, Some(title), _) => title,
        (None, None, Some(stem)) => stem,
        (None, None, None) => "FWOB".to_owned(),
    }
}

/// Refuses to replace a file unless that was asked for.
pub fn ensure_output_available(output: &str, present: bool, force: bool) -> (result: Result<
    (),
    String,
>)
    ensures
        match result {
            Ok(_) => !present || force,
            Err(message) => present && !force && message@ == "output "@ + output@
                + " already exists; pass --force to replace it"@,
        },
{
    if present && !force {
        Err(text::concat3("output ", output, " already exists; pass --force to replace it"))
    } else {
        Ok(())
    }
}

/// Writes what is printed of a new file.
pub fn print_created(w: &mut TomlWriter, output: &str)
    ensures
        final(w)@ == old(w)@.section("new"@).kv_str("output"@, output@),
{
    w.section("new");
    w.kv_str("output", output);
}

/// The name that a field type is printed with stands for it, and so does its first letter where a
/// number is meant.
pub proof fn field_types_read_back(field_type: FieldType)
    ensures
        field_type_of(inspect::field_type_word(field_type)) == Some(field_type),
        field_type_of("i"@) == Some(FieldType::SignedInteger),
        field_type_of("u"@) == Some(FieldType::UnsignedInteger),
        field_type_of("f"@) == Some(FieldType::FloatingPoint),
{
    reveal_strlit("i");
    assert("i"@.len() == 1);
    reveal_strlit("int");
    assert("int"@.len() == 3);
    reveal_strlit("signed");
    assert("signed"@.len() == 6);
    reveal_strlit("signed-integer");
    assert("signed-integer"@.len() == 14);
    reveal_strlit("u");
    assert("u"@.len() == 1);
    reveal_strlit("uint");
    assert("uint"@.len() == 4);
    reveal_strlit("unsigned");
    assert("unsigned"@.len() == 8);
    reveal_strlit("unsigned-integer");
    assert("unsigned-integer"@.len() == 16);
    reveal_strlit("f");
    assert("f"@.len() == 1);
    reveal_strlit("float");
    assert("float"@.len() == 5);
    reveal_strlit("floating");
    assert("floating"@.len() == 8);
    reveal_strlit("floating-point");
    assert("floating-point"@.len() == 14);
    reveal_strlit("utf8");
    assert("utf8"@.len() == 4);
    reveal_strlit("utf8-string");
    assert("utf8-string"@.len() == 11);
    reveal_strlit("string");
    assert("string"@.len() == 6);
    reveal_strlit("string-index");
    assert("string-index"@.len() == 12);
    reveal_strlit("string-table-index");
    assert("string-table-index"@.len() == 18);
    reveal_strlit("stridx");
    assert("stridx"@.len() == 6);
    assert("i"@[0] == 'i');
    assert("u"@[0] == 'u');
    assert("f"@[0] == 'f');
    assert("signed-integer"@[0] == 's');
    assert("floating-point"@[0] == 'f');
    assert("utf8-string"@[0] == 'u');
}

/// A field that is spelled out reads back: its name, its type, its length, at the place that was
/// asked for. A length of zero is refused, and so is a missing name.
pub proof fn spelled_fields_read_back(
    name: Seq<char>,
    word: Seq<char>,
    length: nat,
    offset: u32,
    field_type: FieldType,
)
    requires
        !name.contains(':'),
        !word.contains(':'),
        field_type_of(word) == Some(field_type),
    ensures
        ({
            let value = name + seq![':'] + (word + seq![':'] + number::decimal(length));
            &&& field_of(value, offset) is Ok <==> name.len() > 0 && 0 < length <= u16::MAX
            &&& field_of(value, offset) matches Ok(field) ==> field == (FieldModel {
                name,
                field_type,
                length: length as u16,
                offset,
                semantic: FieldSemantic::Plain,
            })
        }),
{
    let digits = number::decimal(length);
    number::decimal_is_digits(length);
    number::decimal_reads_back(length);
    assert(!digits.contains(':')) by {
        if digits.contains(':') {
            let i = choose|i: int| 0 <= i < digits.len() && digits[i] == ':';
            assert(number::is_digit(digits[i]));
        }
    }
    let rest = word + seq![':'] + digits;
    let value = name + seq![':'] + rest;
    text::parts_are_pieces(name, rest, ':');
    text::parts_are_pieces(word, digits, ':');
    text::parts_are_pieces(digits, Seq::empty(), ':');
    let parts = text::pieces(value, ':');
    assert(parts == seq![name] + (seq![word] + seq![digits]));
    assert(parts[0] == name && parts[1] == word && parts[2] == digits && parts.len() == 3);
    assert(number::unsigned_part(digits) == digits) by {
        assert(number::is_digit(digits[0]));
    }
}

/// A command line spells out its fields one by one: each is what its own text says, at the place
/// behind those before it.
pub proof fn created_fields_are_what_was_spelled(values: Seq<Seq<char>>, index: int)
    requires
        fields_of(values) is Ok,
        0 <= index < values.len(),
    ensures
        fields_of(values)->Ok_0.len() == values.len(),
        field_of(values[index], fields_of(values)->Ok_0[index].offset) == Ok::<
            FieldModel,
            Seq<char>,
        >(fields_of(values)->Ok_0[index]),
        fields_of(values)->Ok_0[index].semantic == FieldSemantic::Plain,
    decreases values.len(),
{
    let fields = fields_of(values)->Ok_0;
    let shorter = values.drop_last();
    let before = fields_of(shorter)->Ok_0;
    if values.len() > 1 {
        created_fields_are_what_was_spelled(
            shorter,
            if index < shorter.len() {
                index
            } else {
                0
            },
        );
    } else {
        assert(before == Seq::<FieldModel>::empty());
    }
    assert(fields.len() == values.len());
    if index < shorter.len() {
        assert(fields[index] == before[index]);
    } else {
        assert(fields[index] == field_of(
            values.last(),
            schema::total_length(before) as u32,
        )->Ok_0);
    }
}

/// A created schema has the frame type and the key that were asked for, and its frames are as long
/// as its fields.
pub proof fn created_schemas_are_what_was_asked_for(
    frame_type: Option<Seq<char>>,
    values: Seq<Seq<char>>,
    key_field_index: usize,
)
    ensures
        created_schema(frame_type, values, key_field_index) is Ok <==> frame_type is Some
            && values.len() > 0 && fields_of(values) is Ok && key_field_index < values.len(),
        created_schema(frame_type, values, key_field_index) matches Ok(schema) ==> {
            &&& frame_type == Some(schema.frame_type)
            &&& schema.key_field_index == key_field_index
            &&& schema.frame_len == schema::total_length(schema.fields)
            &&& Ok::<Seq<FieldModel>, Seq<char>>(schema.fields) == fields_of(values)
        },
{
    if fields_of(values) is Ok && values.len() > 0 {
        let fields = fields_of(values)->Ok_0;
        created_fields_are_what_was_spelled(values, 0);
        created_lengths_fit(values);
        assert forall|i: int| 0 <= i < fields.len() implies (#[trigger] fields[i]).semantic
            == FieldSemantic::Plain by {
            created_fields_are_what_was_spelled(values, i);
        }
        schema::schemas_are_refused_for_cause(fields, key_field_index as int);
    }
}

proof fn created_lengths_fit(values: Seq<Seq<char>>)
    requires
        fields_of(values) is Ok,
    ensures
        schema::total_length(fields_of(values)->Ok_0) <= u32::MAX,
{
    if values.len() > 0 {
        let fields = fields_of(values)->Ok_0;
        let before = fields_of(values.drop_last())->Ok_0;
        assert(fields.drop_last() == before);
    }
}

/// Every field type has short words beside the name that it is printed with.
pub proof fn field_types_have_short_words()
    ensures
        field_type_of("int"@) == Some(FieldType::SignedInteger),
        field_type_of("signed"@) == Some(FieldType::SignedInteger),
        field_type_of("uint"@) == Some(FieldType::UnsignedInteger),
        field_type_of("unsigned"@) == Some(FieldType::UnsignedInteger),
        field_type_of("float"@) == Some(FieldType::FloatingPoint),
        field_type_of("floating"@) == Some(FieldType::FloatingPoint),
        field_type_of("utf8"@) == Some(FieldType::Utf8String),
        field_type_of("string"@) == Some(FieldType::Utf8String),
        field_type_of("string-index"@) == Some(FieldType::StringTableIndex),
        field_type_of("stridx"@) == Some(FieldType::StringTableIndex),
{
    reveal_strlit("i");
    assert("i"@.len() == 1);
    reveal_strlit("int");
    assert("int"@.len() == 3);
    reveal_strlit("signed");
    assert("signed"@.len() == 6);
    reveal_strlit("signed-integer");
    assert("signed-integer"@.len() == 14);
    reveal_strlit("u");
    assert("u"@.len() == 1);
    reveal_strlit("uint");
    assert("uint"@.len() == 4);
    reveal_strlit("unsigned");
    assert("unsigned"@.len() == 8);
    reveal_strlit("unsigned-integer");
    assert("unsigned-integer"@.len() == 16);
    reveal_strlit("f");
    assert("f"@.len() == 1);
    reveal_strlit("float");
    assert("float"@.len() == 5);
    reveal_strlit("floating");
    assert("floating"@.len() == 8);
    reveal_strlit("floating-point");
    assert("floating-point"@.len() == 14);
    reveal_strlit("utf8");
    assert("utf8"@.len() == 4);
    reveal_strlit("utf8-string");
    assert("utf8-string"@.len() == 11);
    reveal_strlit("string");
    assert("string"@.len() == 6);
    reveal_strlit("string-index");
    assert("string-index"@.len() == 12);
    reveal_strlit("string-table-index");
    assert("string-table-index"@.len() == 18);
    reveal_strlit("stridx");
    assert("stridx"@.len() == 6);
    assert("uint"@[1] == 'i');
    assert("utf8"@[1] == 't');
    assert("signed"@[1] == 'i');
    assert("string"@[1] == 't');
    assert("string"@[3] == 'i');
    assert("stridx"@[3] == 'i');
    assert("string"@[4] == 'n');
    assert("stridx"@[4] == 'd');
    assert("unsigned"@[0] == 'u');
    assert("floating"@[0] == 'f');
}

} // verus!

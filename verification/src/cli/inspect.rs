//! What is printed of a file that is inspected or verified, and previews of frames.

use crate::cli::metadata::V2Metadata;
use crate::cli::operation_summary;
use crate::cli::operation_summary::StorageRatios;
use crate::cli::output;
use crate::error::Failure;
use crate::formatting::value;
use crate::formatting::value::ValueModel;
use crate::key;
use crate::number;
use crate::options;
use crate::options::FormatVersion;
use crate::schema;
use crate::schema::{Field, FieldModel, FieldSemantic, FieldType, Schema, SchemaModel, TimestampUnit};
use crate::text;
use crate::toml;
use crate::toml::{TomlModel, TomlWriter};
use vstd::prelude::*;
use vstd::slice::slice_subrange;
use vstd::string::*;

verus! {

/// How many frames are shown from the start of a file, and how many from its end.
pub const FRAME_PREVIEW_COUNT: u64 = 3;

/// The name of a field type.
pub open spec fn field_type_word(field_type: FieldType) -> Seq<char> {
    match field_type {
        FieldType::SignedInteger => "signed-integer"@,
        FieldType::UnsignedInteger => "unsigned-integer"@,
        FieldType::FloatingPoint => "floating-point"@,
        FieldType::Utf8String => "utf8-string"@,
        FieldType::StringTableIndex => "string-table-index"@,
    }
}

/// The name of a field type.
pub fn field_type_name(field_type: FieldType) -> (result: &'static str)
    ensures
        result@ == field_type_word(field_type),
{
    match field_type {
        FieldType::SignedInteger => "signed-integer",
        FieldType::UnsignedInteger => "unsigned-integer",
        FieldType::FloatingPoint => "floating-point",
        FieldType::Utf8String => "utf8-string",
        FieldType::StringTableIndex => "string-table-index",
    }
}

/// The name of what numbers stand for.
pub open spec fn semantic_name(semantic: FieldSemantic) -> Seq<char> {
    match semantic {
        FieldSemantic::Plain => "none"@,
        FieldSemantic::UnixTimestamp(TimestampUnit::Seconds) => "unix-seconds"@,
        FieldSemantic::UnixTimestamp(TimestampUnit::Milliseconds) => "unix-milliseconds"@,
        FieldSemantic::UnixTimestamp(TimestampUnit::Microseconds) => "unix-microseconds"@,
        FieldSemantic::UnixTimestamp(TimestampUnit::Nanoseconds) => "unix-nanoseconds"@,
        FieldSemantic::FixedPoint(points) => "fixed-"@ + number::decimal(points as nat),
        FieldSemantic::Percentage(points) => "percent-"@ + number::decimal(points as nat),
    }
}

/// The name of what numbers stand for.
pub fn field_semantic_name(semantic: FieldSemantic) -> (result: String)
    ensures
        result@ == semantic_name(semantic),
{
    match semantic {
        FieldSemantic::Plain => "none".to_owned(),
        FieldSemantic::UnixTimestamp(TimestampUnit::Seconds) => "unix-seconds".to_owned(),
        FieldSemantic::UnixTimestamp(TimestampUnit::Milliseconds) => "unix-milliseconds".to_owned(),
        FieldSemantic::UnixTimestamp(TimestampUnit::Microseconds) => "unix-microseconds".to_owned(),
        FieldSemantic::UnixTimestamp(TimestampUnit::Nanoseconds) => "unix-nanoseconds".to_owned(),
        FieldSemantic::FixedPoint(points) => {
            let mut name: String = "fixed-".to_owned();
            number::push_decimal(&mut name, points as u128);
            name
        },
        FieldSemantic::Percentage(points) => {
            let mut name: String = "percent-".to_owned();
            number::push_decimal(&mut name, points as u128);
            name
        },
    }
}

/// A line of a preview: a frame, or a gap.
#[derive(Debug, Clone, Copy, PartialEq, Eq, Structural)]
pub enum PreviewIndex {
    Frame(u64),
    Ellipsis,
}

/// The lines of a preview of so many frames: all of them where they are few, and else the first
/// and the last with a gap between them.
pub open spec fn preview_of(frame_count: u64) -> Seq<PreviewIndex> {
    if frame_count <= 2 * FRAME_PREVIEW_COUNT {
        Seq::new(frame_count as nat, |i: int| PreviewIndex::Frame(i as u64))
    } else {
        Seq::new(
            (2 * FRAME_PREVIEW_COUNT + 1) as nat,
            |i: int|
                if i < FRAME_PREVIEW_COUNT {
                    PreviewIndex::Frame(i as u64)
                } else if i == FRAME_PREVIEW_COUNT {
                    PreviewIndex::Ellipsis
                } else {
                    PreviewIndex::Frame((frame_count - (2 * FRAME_PREVIEW_COUNT + 1 - i)) as u64)
                },
        )
    }
}

/// The lines of a preview of so many frames.
pub fn preview_indices(frame_count: u64) -> (result: Vec<PreviewIndex>)
    ensures
        result@ == preview_of(frame_count),
{
    let mut out: Vec<PreviewIndex> = Vec::new();
    let few: bool = frame_count <= 2 * FRAME_PREVIEW_COUNT;
    let head: u64 = if few { frame_count } else { FRAME_PREVIEW_COUNT };
    let mut index: u64 = 0;
    while index < head
        invariant
            index <= head,
            head <= 2 * FRAME_PREVIEW_COUNT,
            out@ == Seq::new(index as nat, |i: int| PreviewIndex::Frame(i as u64)),
        decreases head - index,
    {
        out.push(PreviewIndex::Frame(index));
        index = index + 1;
        assert(out@ == Seq::new(index as nat, |i: int| PreviewIndex::Frame(i as u64)));
    }
    if few {
        return out;
    }
    out.push(PreviewIndex::Ellipsis);
    let mut tail: u64 = frame_count - FRAME_PREVIEW_COUNT;
    assert(out@ == preview_of(frame_count).take(FRAME_PREVIEW_COUNT + 1));
    while tail < frame_count
        invariant
            frame_count > 2 * FRAME_PREVIEW_COUNT,
            frame_count - FRAME_PREVIEW_COUNT <= tail <= frame_count,
            out@ == preview_of(frame_count).take(
                2 * FRAME_PREVIEW_COUNT + 1 - (frame_count - tail),
            ),
        decreases frame_count - tail,
    {
        out.push(PreviewIndex::Frame(tail));
        tail = tail + 1;
        assert(out@ == preview_of(frame_count).take(
            2 * FRAME_PREVIEW_COUNT + 1 - (frame_count - tail),
        ));
    }
    assert(preview_of(frame_count).take((2 * FRAME_PREVIEW_COUNT + 1) as int) == preview_of(
        frame_count,
    ));
    out
}

/// A preview shows frames of the file in their order, the first and the last among them.
pub proof fn preview_is_in_order(frame_count: u64, first: int, second: int)
    requires
        0 <= first < second < preview_of(frame_count).len(),
    ensures
        preview_of(frame_count)[0] == PreviewIndex::Frame(0),
        preview_of(frame_count).last() == PreviewIndex::Frame((frame_count - 1) as u64),
        preview_of(frame_count)[first] is Frame && preview_of(frame_count)[second] is Frame ==> (
        preview_of(frame_count)[first]->Frame_0 < preview_of(frame_count)[second]->Frame_0
            < frame_count),
{
}

/// How many frames lie in front of a page.
pub open spec fn frames_before(page_frames: Seq<u32>, page: int) -> nat
    decreases page,
{
    if page <= 0 {
        0
    } else {
        frames_before(page_frames, page - 1) + page_frames[page - 1] as nat
    }
}

/// The page that holds a frame, and the place of the frame in it.
pub fn locate_frame(page_frames: &[u32], index: u64) -> (result: Option<(usize, u64)>)
    requires
        frames_before(page_frames@, page_frames@.len() as int) <= u64::MAX,
    ensures
        match result {
            Some((page, place)) => {
                &&& page < page_frames@.len()
                &&& place < page_frames@[page as int]
                &&& frames_before(page_frames@, page as int) + place == index
            },
            None => frames_before(page_frames@, page_frames@.len() as int) <= index,
        },
{
    let mut base: u64 = 0;
    let mut page: usize = 0;
    while page < page_frames.len()
        invariant
            page <= page_frames@.len(),
            frames_before(page_frames@, page_frames@.len() as int) <= u64::MAX,
            base == frames_before(page_frames@, page as int),
            base <= index,
        decreases page_frames@.len() - page,
    {
        let frames: u64 = page_frames[page] as u64;
        proof {
            frames_before_grows(page_frames@, page as int + 1, page_frames@.len() as int);
        }
        if index < base + frames {
            return Some((page, index - base));
        }
        base = base + frames;
        page = page + 1;
    }
    None
}

proof fn frames_before_grows(page_frames: Seq<u32>, page: int, later: int)
    requires
        0 <= page <= later,
    ensures
        frames_before(page_frames, page) <= frames_before(page_frames, later),
    decreases later,
{
    if page < later {
        frames_before_grows(page_frames, page, later - 1);
    }
}

/// A frame out of the frames of its page.
pub fn frame_in_page(raw: &[u8], place: usize, frame_len: usize) -> (result: Vec<u8>)
    requires
        (place + 1) * frame_len <= raw@.len(),
    ensures
        result@ == raw@.subrange(place * frame_len, (place + 1) * frame_len),
{
    proof {
        assert((place + 1) * frame_len == place * frame_len + frame_len) by (nonlinear_arith);
        assert(0 <= place * frame_len) by (nonlinear_arith);
    }
    let total: usize = raw.len();
    let start: usize = place * frame_len;
    let mut frame: Vec<u8> = Vec::new();
    let mut i: usize = start;
    while i < start + frame_len
        invariant
            start <= i <= start + frame_len <= total,
            total == raw@.len(),
            frame@ == raw@.subrange(start as int, i as int),
        decreases start + frame_len - i,
    {
        frame.push(raw[i]);
        i = i + 1;
        assert(frame@ == raw@.subrange(start as int, i as int));
    }
    frame
}

/// What is said of a frame that no page holds.
pub fn frame_out_of_range(index: u64) -> (result: String)
    ensures
        result@ == "frame index "@ + number::decimal(index as nat) + " is out of range"@,
{
    let digits: String = number::decimal_string(index as u128);
    text::concat3("frame index ", digits.as_str(), " is out of range")
}

/// Bytes in hexadecimal.
pub open spec fn hex_value(bytes: Seq<u8>) -> Seq<char> {
    "0x"@ + number::hex_text(bytes)
}

/// Bytes in hexadecimal.
pub fn format_hex(bytes: &[u8]) -> (result: String)
    ensures
        result@ == hex_value(bytes@),
{
    let mut out: String = "0x".to_owned();
    number::push_hex(&mut out, bytes);
    out
}

/// A signed integer with its digits in groups, or bytes in hexadecimal where they are none.
pub open spec fn signed_cell(bytes: Seq<u8>) -> Seq<char> {
    if value::is_integer_width(bytes.len()) {
        number::grouped_integer(value::twos_complement(bytes))
    } else {
        hex_value(bytes)
    }
}

/// A signed integer with its digits in groups, or bytes in hexadecimal where they are none.
pub fn format_signed(bytes: &[u8]) -> (result: String)
    ensures
        result@ == signed_cell(bytes@),
{
    match value::decode_signed(bytes) {
        Ok(number) => number::comma_i128(number as i128),
        Err(_) => format_hex(bytes),
    }
}

/// An unsigned integer with its digits in groups, or bytes in hexadecimal where they are none.
pub open spec fn unsigned_cell(bytes: Seq<u8>) -> Seq<char> {
    if value::is_integer_width(bytes.len()) {
        number::grouped_integer(value::little_endian(bytes) as int)
    } else {
        hex_value(bytes)
    }
}

/// An unsigned integer with its digits in groups, or bytes in hexadecimal where they are none.
pub fn format_unsigned(bytes: &[u8]) -> (result: String)
    ensures
        result@ == unsigned_cell(bytes@),
{
    match value::decode_unsigned(bytes) {
        Ok(number) => number::comma_u64(number),
        Err(_) => format_hex(bytes),
    }
}

/// A field of a frame in a preview; `fraction` is the text of a number of four or eight bytes that
/// is no integer.
pub open spec fn field_cell(field: FieldModel, frame: Seq<u8>, fraction: Seq<char>) -> Seq<char> {
    let bytes = frame.subrange(field.offset as int, field.offset + field.length);
    match field.field_type {
        FieldType::SignedInteger => signed_cell(bytes),
        FieldType::UnsignedInteger | FieldType::StringTableIndex => unsigned_cell(bytes),
        FieldType::FloatingPoint => if bytes.len() == 4 || bytes.len() == 8 {
            fraction
        } else {
            hex_value(bytes)
        },
        FieldType::Utf8String => value::fixed_text(bytes),
    }
}

/// A field of a frame in a preview.
pub fn format_field_value(field: &Field, frame: &[u8], fraction: &str) -> (result: String)
    requires
        field.offset + field.length <= frame@.len(),
    ensures
        result@ == field_cell(field@, frame@, fraction@),
{
    let total: usize = frame.len();
    let start: usize = field.offset as usize;
    let end: usize = start + field.length as usize;
    let bytes: &[u8] = slice_subrange(frame, start, end);
    match field.field_type {
        FieldType::SignedInteger => format_signed(bytes),
        FieldType::UnsignedInteger | FieldType::StringTableIndex => format_unsigned(bytes),
        FieldType::FloatingPoint => if bytes.len() == 4 || bytes.len() == 8 {
            fraction.to_owned()
        } else {
            format_hex(bytes)
        },
        FieldType::Utf8String => value::decode_text(bytes),
    }
}

/// A line of a preview with what it shows.
pub enum PreviewRow {
    /// A frame: its index, its bytes, and for every field the text of a number that is no integer,
    /// to six places.
    Frame { index: u64, bytes: Vec<u8>, fractions: Vec<String> },
    Ellipsis,
}

/// Whether a line of a preview has what its fields need.
pub open spec fn row_fits(fields: Seq<FieldModel>, row: PreviewRow) -> bool {
    match row {
        PreviewRow::Ellipsis => true,
        PreviewRow::Frame { index, bytes, fractions } => {
            &&& fractions@.len() == fields.len()
            &&& forall|i: int|
                0 <= i < fields.len() ==> (#[trigger] fields[i]).offset + fields[i].length
                    <= bytes@.len()
        },
    }
}

/// The cells of a line of a preview.
pub open spec fn row_cells(fields: Seq<FieldModel>, row: PreviewRow) -> Seq<Seq<char>> {
    match row {
        PreviewRow::Ellipsis => Seq::new(fields.len() + 1, |i: int| "..."@),
        PreviewRow::Frame { index, bytes, fractions } => Seq::new(
            fields.len() + 1,
            |i: int|
                if i == 0 {
                    number::grouped_integer(index as int)
                } else {
                    field_cell(fields[i - 1], bytes@, fractions@[i - 1]@)
                },
        ),
    }
}

/// The headers of a preview.
pub open spec fn preview_headers(fields: Seq<FieldModel>) -> Seq<Seq<char>> {
    Seq::new(
        fields.len() + 1,
        |i: int|
            if i == 0 {
                "index"@
            } else {
                fields[i - 1].name
            },
    )
}

/// Which columns of a preview are aligned to their right.
pub open spec fn preview_sides(fields: Seq<FieldModel>) -> Seq<bool> {
    Seq::new(
        fields.len() + 1,
        |i: int| i == 0 || fields[i - 1].field_type != FieldType::Utf8String,
    )
}

/// A preview of frames as a table.
pub open spec fn preview_text(fields: Seq<FieldModel>, rows: Seq<PreviewRow>) -> Seq<char> {
    output::table_text(
        preview_headers(fields),
        rows.map_values(|row: PreviewRow| row_cells(fields, row)),
        preview_sides(fields),
    )
}

fn preview_cells(fields: &Vec<Field>, row: &PreviewRow) -> (result: Vec<String>)
    requires
        fields@.len() < usize::MAX,
        row_fits(schema::field_models(fields@), *row),
    ensures
        text::views(result@) == row_cells(schema::field_models(fields@), *row),
{
    let ghost models = schema::field_models(fields@);
    let mut cells: Vec<String> = Vec::new();
    let total: usize = fields.len();
    match row {
        PreviewRow::Ellipsis => {
            let mut i: usize = 0;
            while i < total + 1
                invariant
                    i <= total + 1 <= usize::MAX,
                    cells@.len() == i,
                    forall|j: int| 0 <= j < i ==> (#[trigger] cells@[j])@ == "..."@,
                decreases total + 1 - i,
            {
                cells.push("...".to_owned());
                i = i + 1;
            }
        },
        PreviewRow::Frame { index, bytes, fractions } => {
            cells.push(number::comma_u64(*index));
            let mut i: usize = 0;
            while i < total
                invariant
                    i <= total == fields@.len(),
                    total < usize::MAX,
                    models == schema::field_models(fields@),
                    fractions@.len() == fields@.len(),
                    forall|i: int|
                        0 <= i < models.len() ==> (#[trigger] models[i]).offset + models[i].length
                            <= bytes@.len(),
                    cells@.len() == i + 1,
                    cells@[0]@ == number::grouped_integer(*index as int),
                    forall|j: int|
                        1 <= j <= i ==> (#[trigger] cells@[j])@ == field_cell(
                            models[j - 1],
                            bytes@,
                            fractions@[j - 1]@,
                        ),
                decreases total - i,
            {
                assert(models[i as int] == fields@[i as int]@);
                cells.push(
                    format_field_value(&fields[i], bytes.as_slice(), fractions[i].as_str()),
                );
                i = i + 1;
            }
        },
    }
    assert(text::views(cells@) == row_cells(models, *row));
    cells
}

/// A preview of frames as a table.
pub fn format_frame_preview_rows(schema: &Schema, rows: &Vec<PreviewRow>) -> (result: String)
    requires
        schema.fields@.len() < usize::MAX,
        forall|i: int| 0 <= i < rows@.len() ==> row_fits(schema@.fields, #[trigger] rows@[i]),
    ensures
        result@ == preview_text(schema@.fields, rows@),
{
    let ghost fields = schema@.fields;
    let mut headers: Vec<String> = Vec::new();
    let mut sides: Vec<bool> = Vec::new();
    headers.push("index".to_owned());
    sides.push(true);
    let mut i: usize = 0;
    while i < schema.fields.len()
        invariant
            i <= schema.fields@.len(),
            fields == schema@.fields,
            headers@.len() == i + 1,
            sides@.len() == i + 1,
            headers@[0]@ == "index"@,
            sides@[0],
            forall|j: int| 1 <= j <= i ==> (#[trigger] headers@[j])@ == fields[j - 1].name,
            forall|j: int|
                1 <= j <= i ==> (#[trigger] sides@[j]) == (fields[j - 1].field_type
                    != FieldType::Utf8String),
        decreases schema.fields@.len() - i,
    {
        headers.push(schema.fields[i].name.clone());
        sides.push(schema.fields[i].field_type != FieldType::Utf8String);
        i = i + 1;
    }
    let mut table: Vec<Vec<String>> = Vec::new();
    let mut r: usize = 0;
    while r < rows.len()
        invariant
            r <= rows@.len(),
            fields == schema@.fields,
            schema.fields@.len() < usize::MAX,
            forall|i: int| 0 <= i < rows@.len() ==> row_fits(schema@.fields, #[trigger] rows@[i]),
            table@.len() == r,
            forall|j: int|
                0 <= j < r ==> text::views((#[trigger] table@[j])@) == row_cells(fields, rows@[j]),
        decreases rows@.len() - r,
    {
        table.push(preview_cells(&schema.fields, &rows[r]));
        r = r + 1;
    }
    proof {
        assert forall|j: int| 0 <= j < table@.len() implies (#[trigger] table@[j])@.len()
            == headers@.len() by {
            assert(text::views(table@[j]@).len() == row_cells(fields, rows@[j]).len());
        }
        assert(text::views(headers@) == preview_headers(fields));
        assert(sides@ == preview_sides(fields));
        assert(output::row_views(table@) == rows@.map_values(
            |row: PreviewRow| row_cells(fields, row),
        ));
    }
    output::aligned_table(&headers, &table, sides.as_slice())
}

/// What is said of one field.
pub open spec fn field_doc(w: TomlModel, field: FieldModel) -> TomlModel {
    let w = w.blank().array_section("schema.fields"@).kv_str("name"@, field.name).kv_str(
        "type"@,
        field_type_word(field.field_type),
    ).kv_num("length"@, field.length as int).kv_num("offset"@, field.offset as int);
    if field.semantic != FieldSemantic::Plain {
        w.kv_str("semantic"@, semantic_name(field.semantic))
    } else {
        w
    }
}

/// What is said of fields, one behind the other.
pub open spec fn fields_doc(w: TomlModel, fields: Seq<FieldModel>) -> TomlModel
    decreases fields.len(),
{
    if fields.len() == 0 {
        w
    } else {
        field_doc(fields_doc(w, fields.drop_last()), fields.last())
    }
}

/// The sections on a schema.
pub open spec fn schema_doc(w: TomlModel, schema: SchemaModel) -> TomlModel {
    fields_doc(
        w.blank().section("schema"@).kv_num("field_count"@, schema.fields.len() as int),
        schema.fields,
    )
}

fn print_field(w: &mut TomlWriter, field: &Field)
    ensures
        final(w)@ == field_doc(old(w)@, field@),
{
    w.blank();
    w.array_section("schema.fields");
    w.kv_str("name", field.name.as_str());
    w.kv_str("type", field_type_name(field.field_type));
    w.kv_num("length", field.length);
    w.kv_num("offset", field.offset);
    if field.semantic != FieldSemantic::Plain {
        let name: String = field_semantic_name(field.semantic);
        w.kv_str("semantic", name.as_str());
    }
}

/// Writes the sections on a schema.
pub fn print_schema(w: &mut TomlWriter, schema: &Schema)
    ensures
        final(w)@ == schema_doc(old(w)@, schema@),
{
    let ghost fields = schema@.fields;
    w.blank();
    w.section("schema");
    w.kv_num("field_count", schema.fields.len());
    let ghost head = w@;
    let mut i: usize = 0;
    assert(fields.take(0) == Seq::<FieldModel>::empty());
    while i < schema.fields.len()
        invariant
            i <= schema.fields@.len(),
            fields == schema@.fields,
            w@ == fields_doc(head, fields.take(i as int)),
        decreases schema.fields@.len() - i,
    {
        assert(fields.take(i as int + 1).drop_last() == fields.take(i as int));
        print_field(w, &schema.fields[i]);
        i = i + 1;
    }
    assert(fields.take(i as int) == fields);
}

/// The section with a preview of frames, where there are any.
pub open spec fn preview_doc(w: TomlModel, schema: SchemaModel, rows: Seq<PreviewRow>) -> TomlModel {
    if rows.len() == 0 {
        w
    } else {
        w.blank().section("frames"@).kv_multiline("preview"@, preview_text(schema.fields, rows))
    }
}

/// Writes the section with a preview of frames, where there are any.
pub fn print_preview(w: &mut TomlWriter, schema: &Schema, rows: &Vec<PreviewRow>)
    requires
        schema.fields@.len() < usize::MAX,
        forall|i: int| 0 <= i < rows@.len() ==> row_fits(schema@.fields, #[trigger] rows@[i]),
    ensures
        final(w)@ == preview_doc(old(w)@, schema@, rows@),
{
    if rows.len() > 0 {
        w.blank();
        w.section("frames");
        let preview: String = format_frame_preview_rows(schema, rows);
        w.kv_multiline("preview", preview.as_str());
    }
}

/// What the header of a v1 file says, and how long the file is.
pub struct V1Facts<'a> {
    pub title: &'a str,
    pub frame_type: &'a str,
    pub key_field_index: usize,
    pub physical_bytes: u64,
    pub frame_count: u64,
    pub frame_length: u32,
    pub string_count: u32,
    pub string_table_length: u32,
    pub string_table_preserved_length: u32,
}

/// What is printed of an inspected v1 file.
pub open spec fn inspect_v1_doc(
    w: TomlModel,
    facts: V1Facts<'_>,
    schema: SchemaModel,
    rows: Seq<PreviewRow>,
) -> TomlModel {
    let w = w.section("file"@).kv_str(
        "format"@,
        options::format_name_text(FormatVersion::V1),
    ).kv_str("title"@, facts.title@).kv_str("frame_type"@, facts.frame_type@).kv_num(
        "key_field_index"@,
        facts.key_field_index as int,
    );
    let w = w.blank().section("storage"@).kv_num(
        "physical_bytes"@,
        facts.physical_bytes as int,
    ).kv_num("frame_count"@, facts.frame_count as int).kv_num(
        "frame_length"@,
        facts.frame_length as int,
    ).kv_num("data_bytes"@, facts.frame_count * facts.frame_length);
    let w = w.blank().section("strings"@).kv_num("string_count"@, facts.string_count as int).kv_num(
        "string_table_length"@,
        facts.string_table_length as int,
    ).kv_num("string_table_preserved_length"@, facts.string_table_preserved_length as int);
    preview_doc(schema_doc(w, schema), schema, rows)
}

/// Writes what is printed of an inspected v1 file.
pub fn inspect_v1(
    w: &mut TomlWriter,
    facts: &V1Facts<'_>,
    schema: &Schema,
    rows: &Vec<PreviewRow>,
)
    requires
        facts.frame_count * facts.frame_length <= u64::MAX,
        schema.fields@.len() < usize::MAX,
        forall|i: int| 0 <= i < rows@.len() ==> row_fits(schema@.fields, #[trigger] rows@[i]),
    ensures
        final(w)@ == inspect_v1_doc(old(w)@, *facts, schema@, rows@),
{
    w.section("file");
    w.kv_str("format", options::format_name(FormatVersion::V1));
    w.kv_str("title", facts.title);
    w.kv_str("frame_type", facts.frame_type);
    w.kv_num("key_field_index", facts.key_field_index);
    w.blank();
    w.section("storage");
    w.kv_num("physical_bytes", facts.physical_bytes);
    w.kv_num("frame_count", facts.frame_count);
    w.kv_num("frame_length", facts.frame_length);
    let data_bytes: u64 = facts.frame_count * facts.frame_length as u64;
    w.kv_num("data_bytes", data_bytes);
    w.blank();
    w.section("strings");
    w.kv_num("string_count", facts.string_count);
    w.kv_num("string_table_length", facts.string_table_length);
    w.kv_num("string_table_preserved_length", facts.string_table_preserved_length);
    print_schema(w, schema);
    print_preview(w, schema, rows);
}

/// What the header of a v2 file says.
pub struct V2Facts<'a> {
    pub title: &'a str,
    pub frame_type: &'a str,
    pub key_field_index: usize,
    pub frame_count: u64,
    pub string_count: usize,
    pub page_size: u32,
    pub page_count: u64,
    /// The text of the first key of the file, where it is no integer.
    pub first_key: &'a str,
    /// The text of the last key of the file, where it is no integer.
    pub last_key: &'a str,
}

/// What is said of a file that is not as long as its header says.
pub open spec fn size_warning(metadata: V2Metadata) -> Seq<char> {
    "file has "@ + number::integer_text(
        metadata.physical_bytes - metadata.expected_physical_bytes,
    ) + " trailing_or_missing bytes relative to header"@
}

/// The sections on the file itself and on what it takes up.
pub open spec fn v2_storage_doc(w: TomlModel, facts: V2Facts<'_>, metadata: V2Metadata) -> TomlModel {
    let w = w.section("file"@).kv_str(
        "format"@,
        options::format_name_text(FormatVersion::V2),
    ).kv_str("title"@, facts.title@).kv_str("frame_type"@, facts.frame_type@).kv_num(
        "key_field_index"@,
        facts.key_field_index as int,
    );
    let w = w.blank().section("storage"@).kv_num(
        "physical_bytes"@,
        metadata.physical_bytes as int,
    ).kv_num("expected_physical_bytes"@, metadata.expected_physical_bytes as int);
    let w = if metadata.physical_bytes != metadata.expected_physical_bytes {
        w.kv_str("physical_size_warning"@, size_warning(metadata))
    } else {
        w
    };
    w.kv_num("frame_count"@, facts.frame_count as int).kv_num(
        "string_count"@,
        facts.string_count as int,
    )
}

/// The section on the pages of a v2 file.
pub open spec fn v2_pages_doc(w: TomlModel, facts: V2Facts<'_>, metadata: V2Metadata) -> TomlModel {
    let w = w.blank().section("pages"@).kv_num("page_size"@, facts.page_size as int).kv_num(
        "page_count"@,
        facts.page_count as int,
    ).kv_num("page_payload_capacity_bytes"@, metadata.payload_capacity_per_page as int);
    let w = if facts.page_count > 0 {
        w.kv_num("min_frames_per_page"@, metadata.min_frames as int).kv_num(
            "max_frames_per_page"@,
            metadata.max_frames as int,
        )
    } else {
        w
    };
    let w = match metadata.first_key {
        Some(first) => w.kv_raw("first_key"@, key::key_value_text(first, facts.first_key@)),
        None => w,
    };
    match metadata.last_key {
        Some(last) => w.kv_raw("last_key"@, key::key_value_text(last, facts.last_key@)),
        None => w,
    }
}

/// The section on the compression of a v2 file.
pub open spec fn v2_compression_doc(w: TomlModel, metadata: V2Metadata, ratios: StorageRatios) -> TomlModel {
    let w = w.blank().section("compression"@).kv_num(
        "compressed_payload_bytes"@,
        metadata.compressed_total as int,
    ).kv_num("uncompressed_payload_bytes"@, metadata.uncompressed_total as int).kv_num(
        "padding_bytes"@,
        metadata.padding_bytes as int,
    );
    let w = if metadata.uncompressed_total > 0 {
        w.kv_float("payload_ratio"@, ratios.payload_ratio@).kv_float(
            "physical_ratio"@,
            ratios.physical_ratio@,
        )
    } else {
        w
    };
    let w = if metadata.payload_capacity_total > 0 {
        w.kv_float("page_payload_utilization"@, ratios.page_payload_utilization@)
    } else {
        w
    };
    operation_summary::page_stats_doc(w, metadata)
}

/// What is printed of an inspected v2 file.
pub open spec fn inspect_v2_doc(
    w: TomlModel,
    facts: V2Facts<'_>,
    metadata: V2Metadata,
    ratios: StorageRatios,
    schema: SchemaModel,
    rows: Seq<PreviewRow>,
) -> TomlModel {
    let w = v2_pages_doc(v2_storage_doc(w, facts, metadata), facts, metadata);
    preview_doc(schema_doc(v2_compression_doc(w, metadata, ratios), schema), schema, rows)
}

fn print_v2_storage(w: &mut TomlWriter, facts: &V2Facts<'_>, metadata: &V2Metadata)
    ensures
        final(w)@ == v2_storage_doc(old(w)@, *facts, *metadata),
{
    w.section("file");
    w.kv_str("format", options::format_name(FormatVersion::V2));
    w.kv_str("title", facts.title);
    w.kv_str("frame_type", facts.frame_type);
    w.kv_num("key_field_index", facts.key_field_index);
    w.blank();
    w.section("storage");
    w.kv_num("physical_bytes", metadata.physical_bytes);
    w.kv_num("expected_physical_bytes", metadata.expected_physical_bytes);
    if metadata.physical_bytes != metadata.expected_physical_bytes {
        let difference: i128 = metadata.physical_bytes as i128
            - metadata.expected_physical_bytes as i128;
        let digits: String = number::integer_string(difference);
        let warning: String = text::concat3(
            "file has ",
            digits.as_str(),
            " trailing_or_missing bytes relative to header",
        );
        w.kv_str("physical_size_warning", warning.as_str());
    }
    w.kv_num("frame_count", facts.frame_count);
    w.kv_num("string_count", facts.string_count);
}

fn print_v2_pages(w: &mut TomlWriter, facts: &V2Facts<'_>, metadata: &V2Metadata)
    ensures
        final(w)@ == v2_pages_doc(old(w)@, *facts, *metadata),
{
    w.blank();
    w.section("pages");
    w.kv_num("page_size", facts.page_size);
    w.kv_num("page_count", facts.page_count);
    w.kv_num("page_payload_capacity_bytes", metadata.payload_capacity_per_page);
    if facts.page_count > 0 {
        w.kv_num("min_frames_per_page", metadata.min_frames);
        w.kv_num("max_frames_per_page", metadata.max_frames);
    }
    if let Some(first) = metadata.first_key {
        w.kv_key("first_key", first, facts.first_key);
    }
    if let Some(last) = metadata.last_key {
        w.kv_key("last_key", last, facts.last_key);
    }
}

fn print_v2_compression(w: &mut TomlWriter, metadata: &V2Metadata, ratios: &StorageRatios)
    ensures
        final(w)@ == v2_compression_doc(old(w)@, *metadata, *ratios),
{
    w.blank();
    w.section("compression");
    w.kv_num("compressed_payload_bytes", metadata.compressed_total);
    w.kv_num("uncompressed_payload_bytes", metadata.uncompressed_total);
    w.kv_num("padding_bytes", metadata.padding_bytes);
    if metadata.uncompressed_total > 0 {
        w.kv_float("payload_ratio", ratios.payload_ratio.as_str());
        w.kv_float("physical_ratio", ratios.physical_ratio.as_str());
    }
    if metadata.payload_capacity_total > 0 {
        w.kv_float("page_payload_utilization", ratios.page_payload_utilization.as_str());
    }
    operation_summary::print_page_codec_encoding_stats_toml(w, metadata);
}

/// Writes what is printed of an inspected v2 file.
pub fn inspect_v2(
    w: &mut TomlWriter,
    facts: &V2Facts<'_>,
    metadata: &V2Metadata,
    ratios: &StorageRatios,
    schema: &Schema,
    rows: &Vec<PreviewRow>,
)
    requires
        schema.fields@.len() < usize::MAX,
        forall|i: int| 0 <= i < rows@.len() ==> row_fits(schema@.fields, #[trigger] rows@[i]),
    ensures
        final(w)@ == inspect_v2_doc(old(w)@, *facts, *metadata, *ratios, schema@, rows@),
{
    print_v2_storage(w, facts, metadata);
    print_v2_pages(w, facts, metadata);
    print_v2_compression(w, metadata, ratios);
    print_schema(w, schema);
    print_preview(w, schema, rows);
}

/// Writes what is printed of a v1 file that was verified.
pub fn verify_v1(w: &mut TomlWriter, frame_count: u64, string_count: u32, file_length: u64)
    ensures
        final(w)@ == old(w)@.section("verify"@).kv_str("status"@, "ok"@).kv_num(
            "frame_count"@,
            frame_count as int,
        ).kv_num("string_count"@, string_count as int).kv_num("file_length"@, file_length as int),
{
    w.section("verify");
    w.kv_str("status", "ok");
    w.kv_num("frame_count", frame_count);
    w.kv_num("string_count", string_count);
    w.kv_num("file_length", file_length);
}

/// Writes what is printed of a v2 file that was verified.
pub fn verify_v2(w: &mut TomlWriter, page_count: u64, frame_count: u64)
    ensures
        final(w)@ == old(w)@.section("verify"@).kv_str("status"@, "ok"@).kv_num(
            "page_count"@,
            page_count as int,
        ).kv_num("frame_count"@, frame_count as int),
{
    w.section("verify");
    w.kv_str("status", "ok");
    w.kv_num("page_count", page_count);
    w.kv_num("frame_count", frame_count);
}

/// A preview shows the value that decoding gives: an integer field reads back as the value of the
/// field once the commas are out, with a minus sign only in front of a negative one, and text is
/// shown as it is decoded.
pub proof fn previews_show_decoded_values(
    field: FieldModel,
    strings: Seq<Seq<char>>,
    frame: Seq<u8>,
    fraction: Seq<char>,
)
    requires
        field.offset + field.length <= frame.len(),
    ensures
        value::field_value(field, strings, frame) matches Ok(ValueModel::Unsigned(number)) ==> {
            let cell = field_cell(field, frame, fraction);
            &&& cell == number::grouped_integer(number)
            &&& number >= 0
            &&& number::integer_value(number::without_commas(cell)) == Some(number)
            &&& cell[0] != '-'
        },
        value::field_value(field, strings, frame) matches Ok(ValueModel::Signed(number)) ==> {
            let cell = field_cell(field, frame, fraction);
            &&& cell == number::grouped_integer(number)
            &&& number::integer_value(number::without_commas(cell)) == Some(number)
            &&& cell[0] == '-' <==> number < 0
        },
        field.field_type == FieldType::Utf8String ==> value::field_value(field, strings, frame)
            == Ok::<ValueModel, Failure>(ValueModel::Text(field_cell(field, frame, fraction))),
        field.field_type == FieldType::StringTableIndex && value::is_integer_width(
            field.length as nat,
        ) ==> field_cell(field, frame, fraction) == field_cell(
            FieldModel { field_type: FieldType::UnsignedInteger, ..field },
            frame,
            fraction,
        ),
        value::field_value(field, strings, frame) matches Ok(ValueModel::Float32(_)) ==> field_cell(
            field,
            frame,
            fraction,
        ) == fraction,
        value::field_value(field, strings, frame) matches Ok(ValueModel::Float64(_)) ==> field_cell(
            field,
            frame,
            fraction,
        ) == fraction,
{
    match value::field_value(field, strings, frame) {
        Ok(ValueModel::Unsigned(number)) => number::grouped_integer_reads_back(number),
        Ok(ValueModel::Signed(number)) => number::grouped_integer_reads_back(number),
        _ => {},
    }
}

/// A number that is stored in a field is the number that a preview shows.
pub proof fn previews_show_stored_numbers(
    field: FieldModel,
    front: Seq<u8>,
    back: Seq<u8>,
    fraction: Seq<char>,
    number: int,
)
    requires
        field.offset == front.len(),
        value::is_integer_width(field.length as nat),
        field.field_type == FieldType::SignedInteger ==> -(value::byte_range(
            field.length as nat,
        ) as int) <= 2 * number < value::byte_range(field.length as nat),
        field.field_type == FieldType::UnsignedInteger || field.field_type
            == FieldType::StringTableIndex ==> 0 <= number < value::byte_range(field.length as nat),
        field.is_integer() || field.field_type == FieldType::StringTableIndex,
    ensures
        number::integer_value(
            number::without_commas(
                field_cell(
                    field,
                    front + value::integer_bytes(number, field.length as nat) + back,
                    fraction,
                ),
            ),
        ) == Some(number),
{
    let length = field.length as nat;
    let bytes = value::integer_bytes(number, length);
    let frame = front + bytes + back;
    if field.field_type == FieldType::SignedInteger {
        value::integer_bytes_read_back(number, length);
    } else {
        value::bytes_read_back(number as nat, length);
    }
    assert(frame.subrange(field.offset as int, field.offset + field.length) =~= bytes);
    number::grouped_integer_reads_back(number);
}

/// Bytes that are no number are shown in hexadecimal, two digits for each.
pub proof fn previews_show_other_bytes(
    field: FieldModel,
    frame: Seq<u8>,
    fraction: Seq<char>,
    index: int,
)
    requires
        field.offset + field.length <= frame.len(),
        0 <= index < field.length,
        field.is_integer() || field.field_type == FieldType::StringTableIndex ==> !(
        value::is_integer_width(field.length as nat)),
        field.field_type == FieldType::FloatingPoint ==> field.length != 4 && field.length != 8,
        field.field_type != FieldType::Utf8String,
    ensures
        field_cell(field, frame, fraction).len() == 2 + 2 * field.length,
        number::hex_value(
            field_cell(field, frame, fraction).subrange(2 + 2 * index, 4 + 2 * index),
        ) == Some(frame[field.offset + index] as nat),
{
    reveal_strlit("0x");
    let bytes = frame.subrange(field.offset as int, field.offset + field.length);
    number::hex_text_reads_back(bytes, index);
    let cell = field_cell(field, frame, fraction);
    assert(cell == "0x"@ + number::hex_text(bytes));
    assert(cell.subrange(2 + 2 * index, 4 + 2 * index) == number::hex_text(bytes).subrange(
        2 * index,
        2 * index + 2,
    ));
}

/// A preview shows every frame of a short file, and else exactly the first and the last frames, with
/// one gap where frames are missing.
pub proof fn previews_show_both_ends(frame_count: u64, index: u64)
    requires
        index < frame_count,
    ensures
        preview_of(frame_count).contains(PreviewIndex::Frame(index)) <==> frame_count <= 2
            * FRAME_PREVIEW_COUNT || index < FRAME_PREVIEW_COUNT || index + FRAME_PREVIEW_COUNT
            >= frame_count,
        preview_of(frame_count).contains(PreviewIndex::Ellipsis) <==> frame_count > 2
            * FRAME_PREVIEW_COUNT,
        preview_of(frame_count).len() == if frame_count <= 2 * FRAME_PREVIEW_COUNT {
            frame_count as int
        } else {
            2 * FRAME_PREVIEW_COUNT + 1
        },
{
    let lines = preview_of(frame_count);
    if frame_count <= 2 * FRAME_PREVIEW_COUNT {
        assert(lines[index as int] == PreviewIndex::Frame(index));
    } else {
        assert(lines[FRAME_PREVIEW_COUNT as int] == PreviewIndex::Ellipsis);
        if index < FRAME_PREVIEW_COUNT {
            assert(lines[index as int] == PreviewIndex::Frame(index));
        } else if index + FRAME_PREVIEW_COUNT >= frame_count {
            let place = 2 * FRAME_PREVIEW_COUNT + 1 - (frame_count - index);
            assert(lines[place] == PreviewIndex::Frame(index));
        }
    }
}

/// No two field types have the same name, and no two meanings of numbers have.
pub proof fn names_differ(
    first: FieldType,
    second: FieldType,
    one: FieldSemantic,
    other: FieldSemantic,
)
    ensures
        field_type_word(first) == field_type_word(second) ==> first == second,
        semantic_name(one) == semantic_name(other) ==> one == other,
{
    reveal_strlit("signed-integer");
    assert("signed-integer"@.len() == 14);
    reveal_strlit("unsigned-integer");
    assert("unsigned-integer"@.len() == 16);
    reveal_strlit("floating-point");
    assert("floating-point"@.len() == 14);
    reveal_strlit("utf8-string");
    assert("utf8-string"@.len() == 11);
    reveal_strlit("string-table-index");
    assert("string-table-index"@.len() == 18);
    assert("signed-integer"@[0] == 's');
    assert("floating-point"@[0] == 'f');
    reveal_strlit("none");
    assert("none"@.len() == 4);
    reveal_strlit("unix-seconds");
    assert("unix-seconds"@.len() == 12);
    reveal_strlit("unix-milliseconds");
    assert("unix-milliseconds"@.len() == 17);
    reveal_strlit("unix-microseconds");
    assert("unix-microseconds"@.len() == 17);
    reveal_strlit("unix-nanoseconds");
    assert("unix-nanoseconds"@.len() == 16);
    reveal_strlit("fixed-");
    assert("fixed-"@.len() == 6);
    reveal_strlit("percent-");
    assert("percent-"@.len() == 8);
    let left = semantic_name(one);
    let right = semantic_name(other);
    assert("unix-milliseconds"@[7] == 'l');
    assert("unix-microseconds"@[7] == 'c');
    assert(left[0] == match one {
        FieldSemantic::Plain => 'n',
        FieldSemantic::UnixTimestamp(_) => 'u',
        FieldSemantic::FixedPoint(_) => 'f',
        FieldSemantic::Percentage(_) => 'p',
    });
    assert(right[0] == match other {
        FieldSemantic::Plain => 'n',
        FieldSemantic::UnixTimestamp(_) => 'u',
        FieldSemantic::FixedPoint(_) => 'f',
        FieldSemantic::Percentage(_) => 'p',
    });
    match (one, other) {
        (FieldSemantic::FixedPoint(a), FieldSemantic::FixedPoint(b)) => {
            assert(left.skip(6) == number::decimal(a as nat));
            assert(right.skip(6) == number::decimal(b as nat));
            number::decimal_reads_back(a as nat);
            number::decimal_reads_back(b as nat);
        },
        (FieldSemantic::Percentage(a), FieldSemantic::Percentage(b)) => {
            assert(left.skip(8) == number::decimal(a as nat));
            assert(right.skip(8) == number::decimal(b as nat));
            number::decimal_reads_back(a as nat);
            number::decimal_reads_back(b as nat);
        },
        _ => {},
    }
}

/// A field is printed with its name, its type, its length and its place, and with what its numbers
/// stand for where that is not themselves.
pub proof fn fields_are_said(w: TomlModel, field: FieldModel)
    requires
        !w.color,
    ensures
        ({
            let said = field_doc(w, field);
            &&& said.color == w.color
            &&& said.says_text("name"@, field.name)
            &&& said.says_text("type"@, field_type_word(field.field_type))
            &&& said.says_number("length"@, field.length as int)
            &&& said.says_number("offset"@, field.offset as int)
            &&& (field.semantic != FieldSemantic::Plain) ==> (said.says_text(
                "semantic"@,
                semantic_name(field.semantic),
            ))
        }),
{
    toml::headings_keep_what_is_said(w, Seq::empty());
    let w1 = w.blank();
    toml::headings_keep_what_is_said(w1, "schema.fields"@);
    let w2 = w1.array_section("schema.fields"@);
    toml::texts_are_said(w2, "name"@, field.name);
    let w3 = w2.kv_str("name"@, field.name);
    toml::texts_are_said(w3, "type"@, field_type_word(field.field_type));
    let w4 = w3.kv_str("type"@, field_type_word(field.field_type));
    toml::values_are_said(w4, "length"@, number::integer_text(field.length as int));
    let w5 = w4.kv_num("length"@, field.length as int);
    toml::values_are_said(w5, "offset"@, number::integer_text(field.offset as int));
    let w6 = w5.kv_num("offset"@, field.offset as int);
    let w7 = if field.semantic != FieldSemantic::Plain {
        toml::texts_are_said(w6, "semantic"@, semantic_name(field.semantic));
        let w8 = w6.kv_str("semantic"@, semantic_name(field.semantic));
        w8
    } else {
        w6
    };
    assert(w7 == field_doc(w, field));
}

/// What a v2 file is and takes up is printed under its names, with a warning exactly where the file
/// is not as long as its header says.
pub proof fn v2_storage_is_said(w: TomlModel, facts: V2Facts<'_>, metadata: V2Metadata)
    requires
        !w.color,
    ensures
        ({
            let said = v2_storage_doc(w, facts, metadata);
            &&& said.color == w.color
            &&& said.says_text("format"@, options::format_name_text(FormatVersion::V2))
            &&& said.says_text("title"@, facts.title@)
            &&& said.says_text("frame_type"@, facts.frame_type@)
            &&& said.says_number("key_field_index"@, facts.key_field_index as int)
            &&& said.says_number("physical_bytes"@, metadata.physical_bytes as int)
            &&& said.says_number(
                "expected_physical_bytes"@,
                metadata.expected_physical_bytes as int,
            )
            &&& (metadata.physical_bytes != metadata.expected_physical_bytes) ==> (said.says_text(
                "physical_size_warning"@,
                size_warning(metadata),
            ))
            &&& said.says_number("frame_count"@, facts.frame_count as int)
            &&& said.says_number("string_count"@, facts.string_count as int)
        }),
{
    toml::headings_keep_what_is_said(w, "file"@);
    let w1 = w.section("file"@);
    toml::texts_are_said(w1, "format"@, options::format_name_text(FormatVersion::V2));
    let w2 = w1.kv_str("format"@, options::format_name_text(FormatVersion::V2));
    toml::texts_are_said(w2, "title"@, facts.title@);
    let w3 = w2.kv_str("title"@, facts.title@);
    toml::texts_are_said(w3, "frame_type"@, facts.frame_type@);
    let w4 = w3.kv_str("frame_type"@, facts.frame_type@);
    toml::values_are_said(
        w4,
        "key_field_index"@,
        number::integer_text(facts.key_field_index as int),
    );
    let w5 = w4.kv_num("key_field_index"@, facts.key_field_index as int);
    toml::headings_keep_what_is_said(w5, Seq::empty());
    let w6 = w5.blank();
    toml::headings_keep_what_is_said(w6, "storage"@);
    let w7 = w6.section("storage"@);
    toml::values_are_said(
        w7,
        "physical_bytes"@,
        number::integer_text(metadata.physical_bytes as int),
    );
    let w8 = w7.kv_num("physical_bytes"@, metadata.physical_bytes as int);
    toml::values_are_said(
        w8,
        "expected_physical_bytes"@,
        number::integer_text(metadata.expected_physical_bytes as int),
    );
    let w9 = w8.kv_num("expected_physical_bytes"@, metadata.expected_physical_bytes as int);
    let w10 = if metadata.physical_bytes != metadata.expected_physical_bytes {
        toml::texts_are_said(w9, "physical_size_warning"@, size_warning(metadata));
        let w11 = w9.kv_str("physical_size_warning"@, size_warning(metadata));
        w11
    } else {
        w9
    };
    toml::values_are_said(w10, "frame_count"@, number::integer_text(facts.frame_count as int));
    let w12 = w10.kv_num("frame_count"@, facts.frame_count as int);
    toml::values_are_said(w12, "string_count"@, number::integer_text(facts.string_count as int));
    let w13 = w12.kv_num("string_count"@, facts.string_count as int);
    assert(w13 == v2_storage_doc(w, facts, metadata));
}

/// The pages of a v2 file are printed with their size, their number and their room, and with the
/// fewest and the most frames and the first and the last key where there are any.
pub proof fn v2_pages_are_said(w: TomlModel, facts: V2Facts<'_>, metadata: V2Metadata)
    requires
        !w.color,
    ensures
        ({
            let said = v2_pages_doc(w, facts, metadata);
            &&& said.color == w.color
            &&& said.says_number("page_size"@, facts.page_size as int)
            &&& said.says_number("page_count"@, facts.page_count as int)
            &&& said.says_number(
                "page_payload_capacity_bytes"@,
                metadata.payload_capacity_per_page as int,
            )
            &&& (facts.page_count > 0) ==> (said.says_number(
                "min_frames_per_page"@,
                metadata.min_frames as int,
            ))
            &&& (facts.page_count > 0) ==> (said.says_number(
                "max_frames_per_page"@,
                metadata.max_frames as int,
            ))
            &&& metadata.first_key matches Some(first) ==> (said.says(
                "first_key"@,
                key::key_value_text(first, facts.first_key@),
            ))
            &&& metadata.last_key matches Some(last) ==> (said.says(
                "last_key"@,
                key::key_value_text(last, facts.last_key@),
            ))
        }),
{
    toml::headings_keep_what_is_said(w, Seq::empty());
    let w1 = w.blank();
    toml::headings_keep_what_is_said(w1, "pages"@);
    let w2 = w1.section("pages"@);
    toml::values_are_said(w2, "page_size"@, number::integer_text(facts.page_size as int));
    let w3 = w2.kv_num("page_size"@, facts.page_size as int);
    toml::values_are_said(w3, "page_count"@, number::integer_text(facts.page_count as int));
    let w4 = w3.kv_num("page_count"@, facts.page_count as int);
    toml::values_are_said(
        w4,
        "page_payload_capacity_bytes"@,
        number::integer_text(metadata.payload_capacity_per_page as int),
    );
    let w5 = w4.kv_num("page_payload_capacity_bytes"@, metadata.payload_capacity_per_page as int);
    let w6 = if facts.page_count > 0 {
        toml::values_are_said(
            w5,
            "min_frames_per_page"@,
            number::integer_text(metadata.min_frames as int),
        );
        let w7 = w5.kv_num("min_frames_per_page"@, metadata.min_frames as int);
        toml::values_are_said(
            w7,
            "max_frames_per_page"@,
            number::integer_text(metadata.max_frames as int),
        );
        let w8 = w7.kv_num("max_frames_per_page"@, metadata.max_frames as int);
        w8
    } else {
        w5
    };
    let w9 = match metadata.first_key {
        Some(first) => {
            toml::values_are_said(w6, "first_key"@, key::key_value_text(first, facts.first_key@));
            let w10 = w6.kv_raw("first_key"@, key::key_value_text(first, facts.first_key@));
            w10
        },
        None => w6,
    };
    let w11 = match metadata.last_key {
        Some(last) => {
            toml::values_are_said(w9, "last_key"@, key::key_value_text(last, facts.last_key@));
            let w12 = w9.kv_raw("last_key"@, key::key_value_text(last, facts.last_key@));
            w12
        },
        None => w9,
    };
    assert(w11 == v2_pages_doc(w, facts, metadata));
}

/// What a v1 file is, holds and takes up is printed under its names.
pub proof fn v1_files_are_said(
    w: TomlModel,
    facts: V1Facts<'_>,
    schema: SchemaModel,
    rows: Seq<PreviewRow>,
)
    requires
        !w.color,
    ensures
        ({
            let said = inspect_v1_doc(w, facts, schema, rows);
            &&& said.color == w.color
            &&& said.says_text("format"@, options::format_name_text(FormatVersion::V1))
            &&& said.says_text("title"@, facts.title@)
            &&& said.says_text("frame_type"@, facts.frame_type@)
            &&& said.says_number("key_field_index"@, facts.key_field_index as int)
            &&& said.says_number("physical_bytes"@, facts.physical_bytes as int)
            &&& said.says_number("frame_count"@, facts.frame_count as int)
            &&& said.says_number("frame_length"@, facts.frame_length as int)
            &&& said.says_number("data_bytes"@, facts.frame_count * facts.frame_length)
            &&& said.says_number("string_count"@, facts.string_count as int)
            &&& said.says_number("string_table_length"@, facts.string_table_length as int)
            &&& said.says_number(
                "string_table_preserved_length"@,
                facts.string_table_preserved_length as int,
            )
        }),
{
    toml::headings_keep_what_is_said(w, "file"@);
    let w1 = w.section("file"@);
    toml::texts_are_said(w1, "format"@, options::format_name_text(FormatVersion::V1));
    let w2 = w1.kv_str("format"@, options::format_name_text(FormatVersion::V1));
    toml::texts_are_said(w2, "title"@, facts.title@);
    let w3 = w2.kv_str("title"@, facts.title@);
    toml::texts_are_said(w3, "frame_type"@, facts.frame_type@);
    let w4 = w3.kv_str("frame_type"@, facts.frame_type@);
    toml::values_are_said(
        w4,
        "key_field_index"@,
        number::integer_text(facts.key_field_index as int),
    );
    let w5 = w4.kv_num("key_field_index"@, facts.key_field_index as int);
    toml::headings_keep_what_is_said(w5, Seq::empty());
    let w6 = w5.blank();
    toml::headings_keep_what_is_said(w6, "storage"@);
    let w7 = w6.section("storage"@);
    toml::values_are_said(w7, "physical_bytes"@, number::integer_text(facts.physical_bytes as int));
    let w8 = w7.kv_num("physical_bytes"@, facts.physical_bytes as int);
    toml::values_are_said(w8, "frame_count"@, number::integer_text(facts.frame_count as int));
    let w9 = w8.kv_num("frame_count"@, facts.frame_count as int);
    toml::values_are_said(w9, "frame_length"@, number::integer_text(facts.frame_length as int));
    let w10 = w9.kv_num("frame_length"@, facts.frame_length as int);
    toml::values_are_said(
        w10,
        "data_bytes"@,
        number::integer_text(facts.frame_count * facts.frame_length),
    );
    let w11 = w10.kv_num("data_bytes"@, facts.frame_count * facts.frame_length);
    toml::headings_keep_what_is_said(w11, Seq::empty());
    let w12 = w11.blank();
    toml::headings_keep_what_is_said(w12, "strings"@);
    let w13 = w12.section("strings"@);
    toml::values_are_said(w13, "string_count"@, number::integer_text(facts.string_count as int));
    let w14 = w13.kv_num("string_count"@, facts.string_count as int);
    toml::values_are_said(
        w14,
        "string_table_length"@,
        number::integer_text(facts.string_table_length as int),
    );
    let w15 = w14.kv_num("string_table_length"@, facts.string_table_length as int);
    toml::values_are_said(
        w15,
        "string_table_preserved_length"@,
        number::integer_text(facts.string_table_preserved_length as int),
    );
    let w16 = w15.kv_num(
        "string_table_preserved_length"@,
        facts.string_table_preserved_length as int,
    );
    schema_keeps_what_is_said(w16, schema);
    preview_keeps_what_is_said(schema_doc(w16, schema), schema, rows);
    assert(preview_doc(schema_doc(w16, schema), schema, rows) == inspect_v1_doc(
        w,
        facts,
        schema,
        rows,
    ));
}

proof fn schema_keeps_what_is_said(w: TomlModel, schema: SchemaModel)
    requires
        !w.color,
    ensures
        schema_doc(w, schema).color == w.color,
        forall|k: Seq<char>, v: Seq<char>| #[trigger]
            w.says(k, v) ==> schema_doc(w, schema).says(k, v),
        schema_doc(w, schema).says_number("field_count"@, schema.fields.len() as int),
{
    toml::headings_keep_what_is_said(w, Seq::empty());
    let w1 = w.blank();
    toml::headings_keep_what_is_said(w1, "schema"@);
    let w2 = w1.section("schema"@);
    let count = schema.fields.len() as int;
    toml::values_are_said(w2, "field_count"@, number::integer_text(count));
    fields_keep_what_is_said(w2.kv_num("field_count"@, count), schema.fields);
}

proof fn fields_keep_what_is_said(w: TomlModel, fields: Seq<FieldModel>)
    requires
        !w.color,
    ensures
        fields_doc(w, fields).color == w.color,
        forall|k: Seq<char>, v: Seq<char>| #[trigger]
            w.says(k, v) ==> fields_doc(w, fields).says(k, v),
    decreases fields.len(),
{
    if fields.len() > 0 {
        let before = fields_doc(w, fields.drop_last());
        let field = fields.last();
        fields_keep_what_is_said(w, fields.drop_last());
        toml::headings_keep_what_is_said(before, Seq::empty());
        let w1 = before.blank();
        toml::headings_keep_what_is_said(w1, "schema.fields"@);
        let w2 = w1.array_section("schema.fields"@);
        toml::texts_are_said(w2, "name"@, field.name);
        let w3 = w2.kv_str("name"@, field.name);
        toml::texts_are_said(w3, "type"@, field_type_word(field.field_type));
        let w4 = w3.kv_str("type"@, field_type_word(field.field_type));
        toml::values_are_said(w4, "length"@, number::integer_text(field.length as int));
        let w5 = w4.kv_num("length"@, field.length as int);
        toml::values_are_said(w5, "offset"@, number::integer_text(field.offset as int));
        let w6 = w5.kv_num("offset"@, field.offset as int);
        toml::texts_are_said(w6, "semantic"@, semantic_name(field.semantic));
    }
}

/// Every field of a schema is printed, the first one and the last one alike.
pub proof fn every_field_is_said(w: TomlModel, fields: Seq<FieldModel>, index: int)
    requires
        !w.color,
        0 <= index < fields.len(),
    ensures
        fields_doc(w, fields).says_text("name"@, fields[index].name),
        fields_doc(w, fields).says_text("type"@, field_type_word(fields[index].field_type)),
        fields_doc(w, fields).says_number("length"@, fields[index].length as int),
        fields_doc(w, fields).says_number("offset"@, fields[index].offset as int),
        fields[index].semantic != FieldSemantic::Plain ==> fields_doc(w, fields).says_text(
            "semantic"@,
            semantic_name(fields[index].semantic),
        ),
    decreases fields.len(),
{
    let last = fields.len() - 1;
    let shorter = fields.drop_last();
    let before = fields_doc(w, shorter);
    fields_keep_what_is_said(w, shorter);
    if index == last {
        fields_are_said(before, fields[last]);
    } else {
        every_field_is_said(w, shorter, index);
        fields_keep_what_is_said(before, seq![fields[last]]);
        assert(seq![fields[last]].drop_last() == Seq::<FieldModel>::empty());
        reveal_with_fuel(fields_doc, 2);
        assert(fields_doc(before, seq![fields[last]]) == field_doc(before, fields[last]));
    }
}

/// A preview behind a document keeps what the document says.
pub proof fn preview_keeps_what_is_said(w: TomlModel, schema: SchemaModel, rows: Seq<PreviewRow>)
    ensures
        preview_doc(w, schema, rows).color == w.color,
        forall|k: Seq<char>, v: Seq<char>| #[trigger]
            w.says(k, v) ==> preview_doc(w, schema, rows).says(k, v),
{
    if rows.len() > 0 {
        toml::headings_keep_what_is_said(w, Seq::empty());
        let w1 = w.blank();
        toml::headings_keep_what_is_said(w1, "frames"@);
        let w2 = w1.section("frames"@);
        let value = preview_text(schema.fields, rows);
        toml::nothing_is_taken_back(
            w2,
            toml::painted(w2.color, "38;2;121;192;255"@, "preview"@) + " = \"\"\"\n"@
                + toml::escaped_lines(value) + toml::closing(value) + "\"\"\"\n"@,
        );
    }
}

/// A preview has a column for the index and one for each field: the index of a frame reads back, and
/// each field stands below its name. Text stands to the left, everything else to the right.
pub proof fn previews_have_a_column_for_each_field(
    fields: Seq<FieldModel>,
    row: PreviewRow,
    place: int,
)
    requires
        0 <= place < fields.len(),
    ensures
        preview_headers(fields).len() == fields.len() + 1,
        preview_sides(fields).len() == fields.len() + 1,
        row_cells(fields, row).len() == fields.len() + 1,
        preview_headers(fields)[place + 1] == fields[place].name,
        preview_sides(fields)[0],
        preview_sides(fields)[place + 1] <==> fields[place].field_type != FieldType::Utf8String,
        row matches PreviewRow::Frame { index, bytes, fractions } ==> {
            &&& number::integer_value(number::without_commas(row_cells(fields, row)[0])) == Some(
                index as int,
            )
            &&& row_cells(fields, row)[place + 1] == field_cell(
                fields[place],
                bytes@,
                fractions@[place]@,
            )
        },
        row is Ellipsis ==> row_cells(fields, row)[0] == row_cells(fields, row)[place + 1],
{
    match row {
        PreviewRow::Frame { index, bytes, fractions } => {
            number::grouped_integer_reads_back(index as int);
        },
        PreviewRow::Ellipsis => {},
    }
}

/// The warning on the size of a file says how many bytes it has more than its header says, or with a
/// minus sign how many it lacks.
pub proof fn size_warnings_say_the_difference(metadata: V2Metadata)
    ensures
        ({
            let warning = size_warning(metadata);
            let tail = " trailing_or_missing bytes relative to header"@.len();
            number::integer_value(
                warning.subrange("file has "@.len() as int, warning.len() - tail),
            ) == Some(metadata.physical_bytes - metadata.expected_physical_bytes)
        }),
{
    let difference = metadata.physical_bytes - metadata.expected_physical_bytes;
    let warning = size_warning(metadata);
    let tail = " trailing_or_missing bytes relative to header"@.len();
    number::integer_reads_back(difference);
    assert(warning.subrange("file has "@.len() as int, warning.len() - tail)
        == number::integer_text(difference));
}

} // verus!

//! Whole frames as text, in one of several formats.

use crate::error::{Error, Failure};
use crate::formatting::render;
use crate::formatting::render::{
    field_width, fixed_point_null, is_numeric, render_display, render_plain,
};
use crate::formatting::rows;
use crate::formatting::rows::{
    hex, write_csv_row, write_json_string, write_markdown_row, write_padded_row,
};
use crate::formatting::value;
use crate::formatting::value::{FieldValue, FrameDecoder, ValueModel};
use crate::key;
use crate::number;
use crate::schema::{Field, FieldModel, FieldType, Schema, SchemaModel};
use crate::text;
use vstd::prelude::*;
use vstd::string::*;

verus! {

/// How frames are written.
#[derive(Debug, Clone, Copy, PartialEq, Eq, Structural)]
pub enum FrameFormat {
    Raw,
    Table,
    Markdown,
    Csv,
    JsonLines,
    Hex,
}

impl FrameFormat {
    /// Whether numbers are written with their decimal point in this format.
    pub open spec fn scales_decimals(self) -> bool {
        self == FrameFormat::Table || self == FrameFormat::Markdown
    }

    /// The word for this format.
    pub open spec fn word(self) -> Seq<char> {
        match self {
            FrameFormat::Raw => "raw"@,
            FrameFormat::Table => "table"@,
            FrameFormat::Markdown => "md"@,
            FrameFormat::Csv => "csv"@,
            FrameFormat::JsonLines => "jsonl"@,
            FrameFormat::Hex => "hex"@,
        }
    }

    /// The format that a word names.
    pub open spec fn named(word: Seq<char>) -> Option<FrameFormat> {
        if word == "raw"@ {
            Some(FrameFormat::Raw)
        } else if word == "table"@ {
            Some(FrameFormat::Table)
        } else if word == "md"@ {
            Some(FrameFormat::Markdown)
        } else if word == "csv"@ {
            Some(FrameFormat::Csv)
        } else if word == "jsonl"@ {
            Some(FrameFormat::JsonLines)
        } else if word == "hex"@ {
            Some(FrameFormat::Hex)
        } else {
            None
        }
    }

    /// The format that a word names, letter for letter.
    pub fn parse(value: &str) -> (result: Option<Self>)
        ensures
            result == Self::named(value@),
    {
        if text::same(value, "raw") {
            Some(FrameFormat::Raw)
        } else if text::same(value, "table") {
            Some(FrameFormat::Table)
        } else if text::same(value, "md") {
            Some(FrameFormat::Markdown)
        } else if text::same(value, "csv") {
            Some(FrameFormat::Csv)
        } else if text::same(value, "jsonl") {
            Some(FrameFormat::JsonLines)
        } else if text::same(value, "hex") {
            Some(FrameFormat::Hex)
        } else {
            None
        }
    }

    /// The word for this format.
    pub fn as_str(self) -> (result: &'static str)
        ensures
            result@ == self.word(),
    {
        match self {
            FrameFormat::Raw => "raw",
            FrameFormat::Table => "table",
            FrameFormat::Markdown => "md",
            FrameFormat::Csv => "csv",
            FrameFormat::JsonLines => "jsonl",
            FrameFormat::Hex => "hex",
        }
    }
}

/// The word for a format names that format, and nothing else does.
pub proof fn format_words_name_formats(format: FrameFormat, word: Seq<char>)
    ensures
        FrameFormat::named(word) == Some(format) <==> word == format.word(),
{
    reveal_strlit("raw");
    reveal_strlit("table");
    reveal_strlit("md");
    reveal_strlit("csv");
    reveal_strlit("jsonl");
    reveal_strlit("hex");
    assert("raw"@[0] == 'r' && "raw"@.len() == 3);
    assert("table"@[0] == 't' && "table"@.len() == 5);
    assert("md"@.len() == 2);
    assert("csv"@[0] == 'c' && "csv"@.len() == 3);
    assert("jsonl"@[0] == 'j' && "jsonl"@.len() == 5);
    assert("hex"@[0] == 'h' && "hex"@.len() == 3);
}

/// The names of fields.
pub open spec fn field_names(fields: Seq<FieldModel>) -> Seq<Seq<char>> {
    fields.map_values(|field: FieldModel| field.name)
}

/// The widths of the columns of fields.
pub open spec fn are_column_widths(
    widths: Seq<usize>,
    fields: Seq<FieldModel>,
    strings: Seq<Seq<char>>,
) -> bool {
    &&& widths.len() == fields.len()
    &&& forall|i: int|
        0 <= i < fields.len() ==> #[trigger] widths[i] == render::column_width(fields[i], strings)
}

/// Whether the columns of fields are aligned to their right.
pub open spec fn alignments(fields: Seq<FieldModel>) -> Seq<bool> {
    fields.map_values(|field: FieldModel| render::holds_numbers(field.field_type))
}

/// The cells of the line under the head of a Markdown table.
pub open spec fn separators(fields: Seq<FieldModel>) -> Seq<Seq<char>> {
    fields.map_values(
        |field: FieldModel|
            if render::holds_numbers(field.field_type) {
                "---:"@
            } else {
                "---"@
            },
    )
}

/// What stands in front of the first frame.
pub open spec fn header_text(fields: Seq<FieldModel>, widths: Seq<usize>, format: FrameFormat) -> Seq<
    char,
> {
    match format {
        FrameFormat::Table => rows::padded_row(field_names(fields), widths, alignments(fields)),
        FrameFormat::Markdown => rows::markdown_row(field_names(fields)) + rows::markdown_row(
            separators(fields),
        ),
        FrameFormat::Csv => rows::csv_row(field_names(fields)),
        FrameFormat::Raw | FrameFormat::JsonLines | FrameFormat::Hex => Seq::empty(),
    }
}

/// Values as they are.
pub open spec fn plain_cells(values: Seq<ValueModel>, fractions: Seq<Seq<char>>) -> Seq<Seq<char>> {
    Seq::new(values.len(), |i: int| render::plain_text(values[i], fractions[i]))
}

/// Values as people read them.
pub open spec fn display_cells(
    fields: Seq<FieldModel>,
    values: Seq<ValueModel>,
    fractions: Seq<Seq<char>>,
) -> Seq<Seq<char>> {
    Seq::new(values.len(), |i: int| render::display_text(fields[i], values[i], fractions[i]))
}

/// Values for programs to read, with nothing for a missing one.
pub open spec fn csv_values(
    fields: Seq<FieldModel>,
    values: Seq<ValueModel>,
    fractions: Seq<Seq<char>>,
) -> Seq<Seq<char>> {
    Seq::new(
        values.len(),
        |i: int|
            if render::is_missing(fields[i], values[i]) {
                Seq::empty()
            } else {
                render::plain_text(values[i], fractions[i])
            },
    )
}

/// A value in JSON: numbers bare, but for those that JSON has no number for, texts as strings,
/// and `null` for a missing value.
pub open spec fn json_value(field: FieldModel, value: ValueModel, fraction: Seq<char>) -> Seq<char> {
    if render::is_missing(field, value) {
        "null"@
    } else {
        match value {
            ValueModel::Signed(number) => number::integer_text(number),
            ValueModel::Unsigned(number) => number::integer_text(number),
            ValueModel::Float32(_) | ValueModel::Float64(_) => if render::is_finite(value) {
                fraction
            } else {
                rows::json_string(fraction)
            },
            ValueModel::Decimal(_) => fraction,
            ValueModel::Text(text) => rows::json_string(text),
        }
    }
}

/// The names of fields with their values in JSON.
pub open spec fn json_entries(
    fields: Seq<FieldModel>,
    values: Seq<ValueModel>,
    fractions: Seq<Seq<char>>,
) -> Seq<Seq<char>> {
    Seq::new(
        values.len(),
        |i: int|
            rows::json_string(fields[i].name) + ":"@ + json_value(
                fields[i],
                values[i],
                fractions[i],
            ),
    )
}

/// The line of a frame whose values are known.
pub open spec fn values_text(
    fields: Seq<FieldModel>,
    widths: Seq<usize>,
    format: FrameFormat,
    values: Seq<ValueModel>,
    fractions: Seq<Seq<char>>,
) -> Seq<char> {
    match format {
        FrameFormat::Raw => text::joined(plain_cells(values, fractions), " "@) + "\n"@,
        FrameFormat::Table => rows::padded_row(
            display_cells(fields, values, fractions),
            widths,
            alignments(fields),
        ),
        FrameFormat::Markdown => rows::markdown_row(display_cells(fields, values, fractions)),
        FrameFormat::Csv => rows::csv_row(csv_values(fields, values, fractions)),
        FrameFormat::JsonLines => "{"@ + text::joined(
            json_entries(fields, values, fractions),
            ","@,
        ) + "}"@ + "\n"@,
        FrameFormat::Hex => Seq::empty(),
    }
}

/// The line of a frame, or why it cannot be taken apart.
pub open spec fn frame_text(
    schema: SchemaModel,
    strings: Seq<Seq<char>>,
    widths: Seq<usize>,
    format: FrameFormat,
    frame: Seq<u8>,
    fractions: Seq<Seq<char>>,
) -> Result<Seq<char>, Failure> {
    if format == FrameFormat::Hex {
        Ok(number::hex_text(frame) + "\n"@)
    } else {
        match value::frame_values(schema, strings, frame) {
            Err(failure) => Err(failure),
            Ok(values) => Ok(values_text(schema.fields, widths, format, values, fractions)),
        }
    }
}

/// Whether there is a text for every field whose numbers are no integers.
pub open spec fn covers_fractions(fields: Seq<FieldModel>, count: nat) -> bool {
    forall|i: int|
        0 <= i < fields.len() && (#[trigger] fields[i]).field_type == FieldType::FloatingPoint ==> i
            < count
}

/// Writes frames of one schema in one format.
pub struct FrameFormatter<'a> {
    schema: &'a Schema,
    string_table: &'a [String],
    format: FrameFormat,
    widths: Vec<usize>,
    right_aligned: Vec<bool>,
    header_written: bool,
}

impl<'a> FrameFormatter<'a> {
    /// The schema of the frames.
    pub closed spec fn schema_model(self) -> SchemaModel {
        self.schema@
    }

    /// The texts that string indexes point to.
    pub closed spec fn strings(self) -> Seq<Seq<char>> {
        text::views(self.string_table@)
    }

    /// The format that is written.
    pub closed spec fn written_format(self) -> FrameFormat {
        self.format
    }

    /// The widths of the columns.
    pub closed spec fn column_widths(self) -> Seq<usize> {
        self.widths@
    }

    /// Whether the header has been written.
    pub closed spec fn has_header(self) -> bool {
        self.header_written
    }

    /// Whether the columns fit the schema.
    pub closed spec fn valid(self) -> bool {
        &&& are_column_widths(
            self.widths@,
            self.schema@.fields,
            text::views(self.string_table@),
        )
        &&& self.right_aligned@ == alignments(self.schema@.fields)
        &&& self.format.scales_decimals() ==> self.schema@.decimals_fit()
    }

    /// Whether two formatters write the same way.
    pub open spec fn writes_like(self, other: Self) -> bool {
        &&& self.schema_model() == other.schema_model()
        &&& self.strings() == other.strings()
        &&& self.written_format() == other.written_format()
        &&& self.column_widths() == other.column_widths()
    }

    /// A formatter that has written nothing yet.
    pub fn new(schema: &'a Schema, string_table: &'a [String], format: FrameFormat) -> (result:
        Self)
        requires
            format.scales_decimals() ==> schema@.decimals_fit(),
        ensures
            result.valid(),
            result.schema_model() == schema@,
            result.strings() == text::views(string_table@),
            result.written_format() == format,
            are_column_widths(result.column_widths(), schema@.fields, text::views(string_table@)),
            !result.has_header(),
    {
        let mut widths: Vec<usize> = Vec::new();
        let mut right_aligned: Vec<bool> = Vec::new();
        let mut i: usize = 0;
        while i < schema.fields.len()
            invariant
                i <= schema.fields@.len(),
                widths@.len() == i,
                right_aligned@.len() == i,
                forall|j: int|
                    0 <= j < i ==> #[trigger] widths@[j] == render::column_width(
                        schema@.fields[j],
                        text::views(string_table@),
                    ),
                forall|j: int|
                    0 <= j < i ==> #[trigger] right_aligned@[j] == render::holds_numbers(
                        schema@.fields[j].field_type,
                    ),
            decreases schema.fields@.len() - i,
        {
            widths.push(field_width(&schema.fields[i], string_table));
            right_aligned.push(is_numeric(schema.fields[i].field_type));
            i = i + 1;
        }
        assert(right_aligned@ == alignments(schema@.fields));
        FrameFormatter {
            schema,
            string_table,
            format,
            widths,
            right_aligned,
            header_written: false,
        }
    }

    fn names(&self) -> (result: Vec<String>)
        ensures
            text::views(result@) == field_names(self.schema@.fields),
    {
        let mut result: Vec<String> = Vec::new();
        let mut i: usize = 0;
        while i < self.schema.fields.len()
            invariant
                i <= self.schema.fields@.len(),
                result@.len() == i,
                forall|j: int|
                    0 <= j < i ==> (#[trigger] result@[j])@ == self.schema@.fields[j].name,
            decreases self.schema.fields@.len() - i,
        {
            result.push(self.schema.fields[i].name.clone());
            i = i + 1;
        }
        assert(text::views(result@) == field_names(self.schema@.fields));
        result
    }

    fn separator_cells(&self) -> (result: Vec<String>)
        ensures
            text::views(result@) == separators(self.schema@.fields),
    {
        let mut result: Vec<String> = Vec::new();
        let mut i: usize = 0;
        while i < self.schema.fields.len()
            invariant
                i <= self.schema.fields@.len(),
                result@.len() == i,
                forall|j: int|
                    0 <= j < i ==> (#[trigger] result@[j])@ == separators(self.schema@.fields)[j],
            decreases self.schema.fields@.len() - i,
        {
            if is_numeric(self.schema.fields[i].field_type) {
                result.push("---:".to_owned());
            } else {
                result.push("---".to_owned());
            }
            i = i + 1;
        }
        assert(text::views(result@) == separators(self.schema@.fields));
        result
    }

    /// Writes what stands in front of the first frame, once.
    pub fn write_header(&mut self, output: &mut String)
        requires
            old(self).valid(),
        ensures
            final(self).valid(),
            final(self).writes_like(*old(self)),
            final(self).has_header(),
            final(output)@ == if old(self).has_header() {
                old(output)@
            } else {
                old(output)@ + header_text(
                    old(self).schema_model().fields,
                    old(self).column_widths(),
                    old(self).written_format(),
                )
            },
    {
        if self.header_written {
            return;
        }
        let ghost before = output@;
        let ghost fields = self.schema@.fields;
        match self.format {
            FrameFormat::Table => {
                let names: Vec<String> = self.names();
                write_padded_row(output, &names, &self.widths, &self.right_aligned);
            },
            FrameFormat::Markdown => {
                let names: Vec<String> = self.names();
                write_markdown_row(output, &names);
                let cells: Vec<String> = self.separator_cells();
                write_markdown_row(output, &cells);
                assert(output@ == before + header_text(fields, self.widths@, self.format));
            },
            FrameFormat::Csv => {
                let names: Vec<String> = self.names();
                write_csv_row(output, &names);
            },
            FrameFormat::Raw | FrameFormat::JsonLines | FrameFormat::Hex => {
                assert(output@ == before + header_text(fields, self.widths@, self.format));
            },
        }
        self.header_written = true;
    }

    /// Writes one frame, behind the header where it is the first.
    ///
    /// `fractions` holds, at the place of every field whose numbers are no integers, the text of
    /// its value.
    pub fn write_frame(&mut self, output: &mut String, frame: &[u8], fractions: &[String]) -> (result:
        Result<(), Error>)
        requires
            old(self).valid(),
            covers_fractions(old(self).schema_model().fields, fractions@.len()),
        ensures
            final(self).valid(),
            final(self).writes_like(*old(self)),
            final(self).has_header(),
            ({
                let start = if old(self).has_header() {
                    old(output)@
                } else {
                    old(output)@ + header_text(
                        old(self).schema_model().fields,
                        old(self).column_widths(),
                        old(self).written_format(),
                    )
                };
                let line = frame_text(
                    old(self).schema_model(),
                    old(self).strings(),
                    old(self).column_widths(),
                    old(self).written_format(),
                    frame@,
                    text::views(fractions@),
                );
                match result {
                    Ok(_) => line is Ok && final(output)@ == start + line->Ok_0,
                    Err(error) => line == Err::<Seq<char>, Failure>(error@) && final(output)@
                        == start,
                }
            }),
    {
        self.write_header(output);
        let ghost start = output@;
        if self.format == FrameFormat::Hex {
            let line: String = hex(frame);
            output.append(line.as_str());
            output.append("\n");
            assert(output@ == start + (number::hex_text(frame@) + "\n"@));
            return Ok(());
        }
        let decoder = FrameDecoder::new(self.schema, self.string_table);
        let values: Vec<FieldValue> = match decoder.decode(frame) {
            Ok(values) => values,
            Err(error) => {
                return Err(error);
            },
        };
        let ghost models = value::value_models(values@);
        let ghost fields = self.schema@.fields;
        let ghost texts = text::views(fractions@);
        proof {
            values_fit(fields, text::views(self.string_table@), frame@);
        }
        match self.format {
            FrameFormat::Raw => {
                self.push_raw(output, &values, fractions);
                output.append("\n");
            },
            FrameFormat::Table => {
                let cells: Vec<String> = self.display_row(&values, fractions);
                write_padded_row(output, &cells, &self.widths, &self.right_aligned);
            },
            FrameFormat::Markdown => {
                let cells: Vec<String> = self.display_row(&values, fractions);
                write_markdown_row(output, &cells);
            },
            FrameFormat::Csv => {
                let cells: Vec<String> = self.csv_values_row(&values, fractions);
                write_csv_row(output, &cells);
            },
            FrameFormat::JsonLines => {
                output.append("{");
                self.push_json_entries(output, &values, fractions);
                output.append("}");
                output.append("\n");
            },
            FrameFormat::Hex => {},
        }
        assert(output@ == start + values_text(fields, self.widths@, self.format, models, texts));
        Ok(())
    }

    fn push_raw(&self, output: &mut String, values: &Vec<FieldValue>, fractions: &[String])
        requires
            values_match(
                value::value_models(values@),
                self.schema@.fields,
                text::views(fractions@),
            ),
        ensures
            final(output)@ == old(output)@ + text::joined(
                plain_cells(value::value_models(values@), text::views(fractions@)),
                " "@,
            ),
    {
        let ghost models = value::value_models(values@);
        let ghost texts = text::views(fractions@);
        let ghost cells = plain_cells(models, texts);
        let ghost before = output@;
        let mut i: usize = 0;
        assert(cells.take(0) == Seq::<Seq<char>>::empty());
        assert(output@ == before + text::joined(cells.take(0), " "@));
        while i < values.len()
            invariant
                i <= values@.len(),
                models == value::value_models(values@),
                texts == text::views(fractions@),
                cells == plain_cells(models, texts),
                values_match(models, self.schema@.fields, texts),
                output@ == before + text::joined(cells.take(i as int), " "@),
            decreases values@.len() - i,
        {
            let ghost next = cells.take(i as int + 1);
            assert(next.drop_last() == cells.take(i as int));
            if i > 0 {
                output.append(" ");
            }
            let fraction: &str = fraction_at(fractions, i);
            let cell: String = render_plain(&values[i], fraction);
            assert(models[i as int] == values@[i as int]@);
            assert(cell@ == cells[i as int]);
            output.append(cell.as_str());
            i = i + 1;
            assert(next.last() == cell@);
            assert(output@ == before + text::joined(next, " "@));
        }
        assert(cells.take(i as int) == cells);
    }

    fn display_row(&self, values: &Vec<FieldValue>, fractions: &[String]) -> (result: Vec<String>)
        requires
            self.schema@.decimals_fit(),
            values_match(
                value::value_models(values@),
                self.schema@.fields,
                text::views(fractions@),
            ),
        ensures
            text::views(result@) == display_cells(
                self.schema@.fields,
                value::value_models(values@),
                text::views(fractions@),
            ),
    {
        let ghost models = value::value_models(values@);
        let ghost texts = text::views(fractions@);
        let ghost cells = display_cells(self.schema@.fields, models, texts);
        let mut result: Vec<String> = Vec::new();
        let mut i: usize = 0;
        while i < values.len()
            invariant
                i <= values@.len(),
                self.schema@.decimals_fit(),
                models == value::value_models(values@),
                texts == text::views(fractions@),
                cells == display_cells(self.schema@.fields, models, texts),
                values_match(models, self.schema@.fields, texts),
                result@.len() == i,
                forall|j: int| 0 <= j < i ==> (#[trigger] result@[j])@ == cells[j],
            decreases values@.len() - i,
        {
            let fraction: &str = fraction_at(fractions, i);
            assert(models[i as int] == values@[i as int]@);
            assert(self.schema@.fields[i as int] == self.schema.fields@[i as int]@);
            result.push(render_display(&self.schema.fields[i], &values[i], fraction));
            i = i + 1;
        }
        assert(text::views(result@) == cells);
        result
    }

    fn csv_values_row(&self, values: &Vec<FieldValue>, fractions: &[String]) -> (result: Vec<
        String,
    >)
        requires
            values_match(
                value::value_models(values@),
                self.schema@.fields,
                text::views(fractions@),
            ),
        ensures
            text::views(result@) == csv_values(
                self.schema@.fields,
                value::value_models(values@),
                text::views(fractions@),
            ),
    {
        let ghost models = value::value_models(values@);
        let ghost texts = text::views(fractions@);
        let ghost cells = csv_values(self.schema@.fields, models, texts);
        let mut result: Vec<String> = Vec::new();
        let mut i: usize = 0;
        while i < values.len()
            invariant
                i <= values@.len(),
                models == value::value_models(values@),
                texts == text::views(fractions@),
                cells == csv_values(self.schema@.fields, models, texts),
                values_match(models, self.schema@.fields, texts),
                result@.len() == i,
                forall|j: int| 0 <= j < i ==> (#[trigger] result@[j])@ == cells[j],
            decreases values@.len() - i,
        {
            let fraction: &str = fraction_at(fractions, i);
            assert(models[i as int] == values@[i as int]@);
            assert(self.schema@.fields[i as int] == self.schema.fields@[i as int]@);
            if fixed_point_null(&self.schema.fields[i], &values[i]) {
                result.push(String::new());
            } else {
                result.push(render_plain(&values[i], fraction));
            }
            i = i + 1;
        }
        assert(text::views(result@) == cells);
        result
    }

    fn push_json_entries(&self, output: &mut String, values: &Vec<FieldValue>, fractions: &[String])
        requires
            values_match(
                value::value_models(values@),
                self.schema@.fields,
                text::views(fractions@),
            ),
        ensures
            final(output)@ == old(output)@ + text::joined(
                json_entries(
                    self.schema@.fields,
                    value::value_models(values@),
                    text::views(fractions@),
                ),
                ","@,
            ),
    {
        let ghost models = value::value_models(values@);
        let ghost texts = text::views(fractions@);
        let ghost entries = json_entries(self.schema@.fields, models, texts);
        let ghost before = output@;
        let mut i: usize = 0;
        assert(entries.take(0) == Seq::<Seq<char>>::empty());
        assert(output@ == before + text::joined(entries.take(0), ","@));
        while i < values.len()
            invariant
                i <= values@.len(),
                models == value::value_models(values@),
                texts == text::views(fractions@),
                entries == json_entries(self.schema@.fields, models, texts),
                values_match(models, self.schema@.fields, texts),
                output@ == before + text::joined(entries.take(i as int), ","@),
            decreases values@.len() - i,
        {
            let ghost next = entries.take(i as int + 1);
            assert(next.drop_last() == entries.take(i as int));
            if i > 0 {
                output.append(",");
            }
            let ghost here = output@;
            let fraction: &str = fraction_at(fractions, i);
            assert(models[i as int] == values@[i as int]@);
            assert(self.schema@.fields[i as int] == self.schema.fields@[i as int]@);
            write_json_string(output, self.schema.fields[i].name.as_str());
            output.append(":");
            push_json_value(output, &self.schema.fields[i], &values[i], fraction);
            assert(output@ == here + entries[i as int]);
            i = i + 1;
            assert(next.last() == entries[i - 1]);
            assert(output@ == before + text::joined(next, ","@));
        }
        assert(entries.take(i as int) == entries);
    }
}

/// Appends a value in JSON.
fn push_json_value(output: &mut String, field: &Field, value: &FieldValue, fraction: &str)
    ensures
        final(output)@ == old(output)@ + json_value(field@, value@, fraction@),
{
    if fixed_point_null(field, value) {
        output.append("null");
        return;
    }
    match value {
        FieldValue::Signed(number) => number::push_integer(output, *number as i128),
        FieldValue::Unsigned(number) => number::push_integer(output, *number as i128),
        FieldValue::Float32(bits) => if *bits / 0x80_0000 % 0x100 != 0xFF {
            output.append(fraction)
        } else {
            write_json_string(output, fraction)
        },
        FieldValue::Float64(bits) => if *bits / 0x10_0000_0000_0000 % 0x800 != 0x7FF {
            output.append(fraction)
        } else {
            write_json_string(output, fraction)
        },
        FieldValue::Decimal(_) => output.append(fraction),
        FieldValue::String(text) => write_json_string(output, text.as_str()),
    }
}

/// Whether values are of the kinds that the fields hold, with a text for each number that is no
/// integer.
spec fn values_match(
    values: Seq<ValueModel>,
    fields: Seq<FieldModel>,
    fractions: Seq<Seq<char>>,
) -> bool {
    &&& values.len() == fields.len()
    &&& forall|i: int|
        0 <= i < fields.len() ==> (is_fraction(#[trigger] values[i]) ==> fields[i].field_type
            == FieldType::FloatingPoint)
    &&& covers_fractions(fields, fractions.len())
}

spec fn is_fraction(value: ValueModel) -> bool {
    value is Float32 || value is Float64 || value is Decimal
}

proof fn values_fit(fields: Seq<FieldModel>, strings: Seq<Seq<char>>, frame: Seq<u8>)
    ensures
        value::field_values(fields, strings, frame) matches Ok(values) ==> {
            &&& values.len() == fields.len()
            &&& forall|i: int|
                0 <= i < fields.len() ==> (is_fraction(#[trigger] values[i])
                    ==> fields[i].field_type == FieldType::FloatingPoint)
        },
    decreases fields.len(),
{
    if fields.len() > 0 {
        values_fit(fields.drop_last(), strings, frame);
    }
}

/// The text at a place of a list, or nothing where the list is shorter.
fn fraction_at<'a>(fractions: &'a [String], index: usize) -> (result: &'a str)
    ensures
        index < fractions@.len() ==> result@ == fractions@[index as int]@,
{
    if index < fractions.len() {
        fractions[index].as_str()
    } else {
        ""
    }
}

/// In JSON an integer reads back as its value, text reads back as its characters in a JSON string,
/// and `null` stands exactly for the lowest integer of a signed field of fixed-point numbers or
/// percentages.
pub proof fn json_values_read_back(field: FieldModel, value: ValueModel, fraction: Seq<char>)
    requires
        1 <= field.length <= 16,
    ensures
        ({
            let missing = field.field_type == FieldType::SignedInteger && (
            field.semantic is FixedPoint || field.semantic is Percentage);
            let lowest = -(value::byte_range(field.length as nat) as int) / 2;
            &&& value matches ValueModel::Signed(number) ==> if missing && number == lowest {
                json_value(field, value, fraction) == "null"@
            } else {
                number::integer_value(json_value(field, value, fraction)) == Some(number)
            }
            &&& !missing ==> (value matches ValueModel::Unsigned(number) ==> number::integer_value(
                json_value(field, value, fraction),
            ) == Some(number))
            &&& value matches ValueModel::Text(shown) ==> json_value(field, value, fraction)
                == rows::json_string(shown)
        }),
{
    match render::numeric(value) {
        Some(number) => number::integer_reads_back(number),
        None => {},
    }
}

/// Numbers that are no integers are numbers in JSON too, but for those that JSON has no number for:
/// the infinities and what lies beyond them stand in quotes.
pub proof fn json_quotes_what_is_no_number(
    field: FieldModel,
    bits: u32,
    wide: u64,
    fraction: Seq<char>,
)
    ensures
        json_value(field, ValueModel::Float32(bits), fraction) == if -0x7F80_0000
            < key::float_rank(bits as int, 0x8000_0000) < 0x7F80_0000 {
            fraction
        } else {
            rows::json_string(fraction)
        },
        json_value(field, ValueModel::Float64(wide), fraction) == if -0x7FF0_0000_0000_0000
            < key::float_rank(wide as int, 0x8000_0000_0000_0000) < 0x7FF0_0000_0000_0000 {
            fraction
        } else {
            rows::json_string(fraction)
        },
{
}

/// Among comma-separated values an integer reads back as its value, and an empty cell stands exactly
/// for the lowest integer of a signed field of fixed-point numbers or percentages.
pub proof fn csv_values_read_back(
    fields: Seq<FieldModel>,
    values: Seq<ValueModel>,
    fractions: Seq<Seq<char>>,
    index: int,
)
    requires
        fields.len() == values.len(),
        0 <= index < values.len(),
        1 <= fields[index].length <= 16,
    ensures
        ({
            let field = fields[index];
            let cell = csv_values(fields, values, fractions)[index];
            let missing = field.field_type == FieldType::SignedInteger && (
            field.semantic is FixedPoint || field.semantic is Percentage);
            let lowest = -(value::byte_range(field.length as nat) as int) / 2;
            &&& csv_values(fields, values, fractions).len() == values.len()
            &&& values[index] matches ValueModel::Signed(number) ==> if missing && number
                == lowest {
                cell.len() == 0
            } else {
                number::integer_value(cell) == Some(number)
            }
            &&& !missing ==> (values[index] matches ValueModel::Unsigned(number)
                ==> number::integer_value(cell) == Some(number))
            &&& values[index] matches ValueModel::Text(shown) ==> cell == shown
        }),
{
    match render::numeric(values[index]) {
        Some(number) => number::integer_reads_back(number),
        None => {},
    }
}

/// A frame in hexadecimal reads back byte for byte; it is written whatever its bytes are. In every
/// other format a frame is written exactly if all its fields can be decoded.
pub proof fn frames_are_written_whole(
    schema: SchemaModel,
    strings: Seq<Seq<char>>,
    widths: Seq<usize>,
    format: FrameFormat,
    frame: Seq<u8>,
    fractions: Seq<Seq<char>>,
    index: int,
)
    requires
        0 <= index < frame.len(),
    ensures
        ({
            let line = frame_text(schema, strings, widths, format, frame, fractions);
            &&& format == FrameFormat::Hex ==> line is Ok && line->Ok_0.len() == 2 * frame.len() + 1
                && number::hex_value(line->Ok_0.subrange(2 * index, 2 * index + 2)) == Some(
                frame[index] as nat,
            )
            &&& format != FrameFormat::Hex ==> (line is Ok <==> value::frame_values(
                schema,
                strings,
                frame,
            ) is Ok)
        }),
{
    reveal_strlit("\n");
    number::hex_text_reads_back(frame, index);
    if format == FrameFormat::Hex {
        let line = frame_text(schema, strings, widths, format, frame, fractions)->Ok_0;
        assert(line.subrange(2 * index, 2 * index + 2) == number::hex_text(frame).subrange(
            2 * index,
            2 * index + 2,
        ));
    }
}

/// The header and every frame have as many cells as there are fields.
pub proof fn every_field_has_a_cell(
    schema: SchemaModel,
    strings: Seq<Seq<char>>,
    frame: Seq<u8>,
    fractions: Seq<Seq<char>>,
)
    requires
        value::frame_values(schema, strings, frame) is Ok,
    ensures
        ({
            let values = value::frame_values(schema, strings, frame)->Ok_0;
            let count = schema.fields.len();
            &&& field_names(schema.fields).len() == count
            &&& separators(schema.fields).len() == count
            &&& alignments(schema.fields).len() == count
            &&& plain_cells(values, fractions).len() == count
            &&& display_cells(schema.fields, values, fractions).len() == count
            &&& csv_values(schema.fields, values, fractions).len() == count
            &&& json_entries(schema.fields, values, fractions).len() == count
        }),
{
    value::frames_are_decoded_field_by_field(schema, strings, frame);
}

/// A column is aligned the same way in a table and in Markdown: numbers to the right.
pub proof fn numbers_stand_to_the_right(fields: Seq<FieldModel>, index: int)
    requires
        0 <= index < fields.len(),
    ensures
        alignments(fields)[index] <==> fields[index].is_integer() || fields[index].field_type
            == FieldType::FloatingPoint,
        separators(fields)[index].last() == ':' <==> alignments(fields)[index],
        field_names(fields)[index] == fields[index].name,
{
    reveal_strlit("---:");
    reveal_strlit("---");
}

} // verus!

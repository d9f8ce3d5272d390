//! Rows of cells: padded, in Markdown, comma-separated, and as JSON.

use crate::number;
use crate::text;
use vstd::prelude::*;
use vstd::string::*;

verus! {

/// One cell in a column of a width, aligned to its right or to its left.
pub open spec fn padded_cell(value: Seq<char>, width: nat, right: bool) -> Seq<char> {
    if right {
        text::padded_left(value, width, ' ')
    } else {
        text::padded_right(value, width, ' ')
    }
}

/// Cells in their columns, two spaces between each two.
pub open spec fn padded_cells(
    values: Seq<Seq<char>>,
    widths: Seq<usize>,
    right_aligned: Seq<bool>,
) -> Seq<char>
    decreases values.len(),
{
    if values.len() == 0 {
        Seq::empty()
    } else {
        let last = values.len() - 1;
        let before = padded_cells(values.drop_last(), widths, right_aligned);
        (if last > 0 {
            before + "  "@
        } else {
            before
        }) + padded_cell(values[last], widths[last] as nat, right_aligned[last])
    }
}

/// A line of cells in their columns, without white space at its end.
pub open spec fn padded_row(
    values: Seq<Seq<char>>,
    widths: Seq<usize>,
    right_aligned: Seq<bool>,
) -> Seq<char> {
    text::without_trailing_space(padded_cells(values, widths, right_aligned)) + "\n"@
}

/// Markdown cells with a bar behind each.
pub open spec fn markdown_cells(values: Seq<Seq<char>>) -> Seq<char>
    decreases values.len(),
{
    if values.len() == 0 {
        Seq::empty()
    } else {
        markdown_cells(values.drop_last()) + " "@ + text::with_replaced(values.last(), '|', "\\|"@)
            + " |"@
    }
}

/// A row of a Markdown table.
pub open spec fn markdown_row(values: Seq<Seq<char>>) -> Seq<char> {
    "|"@ + markdown_cells(values) + "\n"@
}

/// Whether a character means something to a reader of comma-separated values.
pub open spec fn is_structural(ch: char) -> bool {
    ch == ',' || ch == '"' || ch == '\r' || ch == '\n'
}

/// Whether a cell must stand in quotes among comma-separated values.
pub open spec fn needs_quotes(value: Seq<char>) -> bool {
    exists|i: int| 0 <= i < value.len() && is_structural(#[trigger] value[i])
}

/// One of comma-separated values.
pub open spec fn csv_cell(value: Seq<char>) -> Seq<char> {
    if needs_quotes(value) {
        "\""@ + text::with_replaced(value, '"', "\"\""@) + "\""@
    } else {
        value
    }
}

/// Comma-separated values.
pub open spec fn csv_cells(values: Seq<Seq<char>>) -> Seq<char> {
    text::joined(values.map_values(|value: Seq<char>| csv_cell(value)), ","@)
}

/// A line of comma-separated values.
pub open spec fn csv_row(values: Seq<Seq<char>>) -> Seq<char> {
    csv_cells(values) + "\n"@
}

/// What stands for a character inside a JSON string.
pub open spec fn json_char(ch: char) -> Seq<char> {
    if ch == '"' {
        "\\\""@
    } else if ch == '\\' {
        "\\\\"@
    } else if ch == '\n' {
        "\\n"@
    } else if ch == '\r' {
        "\\r"@
    } else if ch == '\t' {
        "\\t"@
    } else if ch <= '\u{1f}' {
        "\\u00"@ + number::hex_byte(ch as u8)
    } else {
        seq![ch]
    }
}

/// What stands for the characters of a text inside a JSON string.
pub open spec fn json_chars(value: Seq<char>) -> Seq<char>
    decreases value.len(),
{
    if value.len() == 0 {
        Seq::empty()
    } else {
        json_chars(value.drop_last()) + json_char(value.last())
    }
}

/// A text as a JSON string.
pub open spec fn json_string(value: Seq<char>) -> Seq<char> {
    "\""@ + json_chars(value) + "\""@
}

/// Appends a line of cells in their columns.
pub fn write_padded_row(
    output: &mut String,
    values: &Vec<String>,
    widths: &Vec<usize>,
    right_aligned: &Vec<bool>,
)
    requires
        values@.len() <= widths@.len(),
        values@.len() <= right_aligned@.len(),
    ensures
        final(output)@ == old(output)@ + padded_row(
            text::views(values@),
            widths@,
            right_aligned@,
        ),
{
    let ghost texts = text::views(values@);
    let ghost before = output@;
    let mut line: String = String::new();
    let mut i: usize = 0;
    assert(texts.take(0) == Seq::<Seq<char>>::empty());
    while i < values.len()
        invariant
            i <= values@.len() <= widths@.len(),
            values@.len() <= right_aligned@.len(),
            texts == text::views(values@),
            line@ == padded_cells(texts.take(i as int), widths@, right_aligned@),
        decreases values@.len() - i,
    {
        assert(texts.take(i as int + 1).drop_last() == texts.take(i as int));
        if i > 0 {
            line.append("  ");
        }
        if right_aligned[i] {
            text::push_padded_left(&mut line, values[i].as_str(), widths[i], ' ');
        } else {
            text::push_padded_right(&mut line, values[i].as_str(), widths[i], ' ');
        }
        i = i + 1;
    }
    assert(texts.take(i as int) == texts);
    let chars: Vec<char> = text::chars_of(line.as_str());
    let end: usize = text::end_without_space(&chars, chars.len());
    text::push_chars(output, &chars, 0, end);
    output.append("\n");
    assert(chars@.take(chars@.len() as int) == line@);
    assert(chars@.subrange(0, end as int) == chars@.take(end as int));
    assert(output@ == before + padded_row(texts, widths@, right_aligned@));
}

/// Appends a row of a Markdown table.
pub fn write_markdown_row(output: &mut String, values: &Vec<String>)
    ensures
        final(output)@ == old(output)@ + markdown_row(text::views(values@)),
{
    let ghost texts = text::views(values@);
    let ghost before = output@;
    output.append("|");
    let mut i: usize = 0;
    assert(texts.take(0) == Seq::<Seq<char>>::empty());
    assert(output@ == before + ("|"@ + markdown_cells(texts.take(0))));
    while i < values.len()
        invariant
            i <= values@.len(),
            texts == text::views(values@),
            output@ == before + ("|"@ + markdown_cells(texts.take(i as int))),
        decreases values@.len() - i,
    {
        assert(texts.take(i as int + 1).drop_last() == texts.take(i as int));
        output.append(" ");
        text::push_replaced(output, values[i].as_str(), '|', "\\|");
        output.append(" |");
        i = i + 1;
        assert(output@ == before + ("|"@ + markdown_cells(texts.take(i as int))));
    }
    assert(texts.take(i as int) == texts);
    output.append("\n");
    assert(output@ == before + markdown_row(texts));
}

/// One of comma-separated values: in quotes where it holds a comma, a quote or a line end.
pub fn csv_field(value: &str) -> (result: String)
    ensures
        result@ == csv_cell(value@),
{
    let chars: Vec<char> = text::chars_of(value);
    let mut i: usize = 0;
    while i < chars.len()
        invariant
            i <= chars@.len(),
            chars@ == value@,
            forall|j: int| 0 <= j < i ==> !is_structural(#[trigger] value@[j]),
        decreases chars@.len() - i,
    {
        let ch: char = chars[i];
        if ch == ',' || ch == '"' || ch == '\r' || ch == '\n' {
            assert(is_structural(value@[i as int]));
            let mut result: String = "\"".to_owned();
            text::push_replaced(&mut result, value, '"', "\"\"");
            result.append("\"");
            return result;
        }
        i = i + 1;
    }
    value.to_owned()
}

/// Appends comma-separated values.
pub fn push_csv_cells(output: &mut String, values: &Vec<String>)
    ensures
        final(output)@ == old(output)@ + csv_cells(text::views(values@)),
{
    let ghost cells = text::views(values@).map_values(|value: Seq<char>| csv_cell(value));
    let ghost before = output@;
    let mut i: usize = 0;
    assert(cells.take(0) == Seq::<Seq<char>>::empty());
    assert(output@ == before + text::joined(cells.take(0), ","@));
    while i < values.len()
        invariant
            i <= values@.len(),
            cells == text::views(values@).map_values(|value: Seq<char>| csv_cell(value)),
            output@ == before + text::joined(cells.take(i as int), ","@),
        decreases values@.len() - i,
    {
        let ghost next = cells.take(i as int + 1);
        assert(next.drop_last() == cells.take(i as int));
        if i > 0 {
            output.append(",");
        }
        let cell: String = csv_field(values[i].as_str());
        output.append(cell.as_str());
        i = i + 1;
        assert(next.last() == cell@);
        assert(output@ == before + text::joined(next, ","@));
    }
    assert(cells.take(i as int) == cells);
}

/// Appends a line of comma-separated values.
pub fn write_csv_row(output: &mut String, values: &Vec<String>)
    ensures
        final(output)@ == old(output)@ + csv_row(text::views(values@)),
{
    let ghost before = output@;
    push_csv_cells(output, values);
    output.append("\n");
    assert(output@ == before + csv_row(text::views(values@)));
}

/// Appends a text as a JSON string.
pub fn write_json_string(output: &mut String, value: &str)
    ensures
        final(output)@ == old(output)@ + json_string(value@),
{
    let ghost before = output@;
    let chars: Vec<char> = text::chars_of(value);
    output.append("\"");
    let mut i: usize = 0;
    assert(chars@.take(0) == Seq::<char>::empty());
    assert(output@ == before + ("\""@ + json_chars(chars@.take(0))));
    while i < chars.len()
        invariant
            i <= chars@.len(),
            output@ == before + ("\""@ + json_chars(chars@.take(i as int))),
        decreases chars@.len() - i,
    {
        let ch: char = chars[i];
        if ch == '"' {
            output.append("\\\"");
        } else if ch == '\\' {
            output.append("\\\\");
        } else if ch == '\n' {
            output.append("\\n");
        } else if ch == '\r' {
            output.append("\\r");
        } else if ch == '\t' {
            output.append("\\t");
        } else if ch <= '\u{1f}' {
            output.append("\\u00");
            number::push_hex_byte(output, ch as u8);
        } else {
            output.push(ch);
        }
        i = i + 1;
        assert(chars@.take(i as int).drop_last() == chars@.take(i - 1));
        assert(output@ == before + ("\""@ + json_chars(chars@.take(i as int))));
    }
    assert(chars@.take(i as int) == value@);
    output.append("\"");
    assert(output@ == before + json_string(value@));
}

/// Two hexadecimal digits for each byte.
pub fn hex(bytes: &[u8]) -> (result: String)
    ensures
        result@ == number::hex_text(bytes@),
{
    let mut output: String = String::new();
    number::push_hex(&mut output, bytes);
    assert(output@ == number::hex_text(bytes@));
    output
}

/// A cell that stands in quotes ends where its quotes end: inside it, quotes come in pairs only.
///
/// Taking one quote of each pair gives the value back.
pub open spec fn csv_unquoted(cell: Seq<char>) -> Seq<char>
    decreases cell.len(),
{
    if cell.len() == 0 {
        Seq::empty()
    } else if cell.len() >= 2 && cell[cell.len() - 1] == '"' && cell[cell.len() - 2] == '"' {
        csv_unquoted(cell.take(cell.len() - 2)).push('"')
    } else {
        csv_unquoted(cell.drop_last()).push(cell.last())
    }
}

/// Reading a comma-separated cell gives the value back: a cell that starts with a quote is what
/// stands between its quotes with pairs of quotes as one, and any other cell is the value.
pub proof fn csv_reads_back(value: Seq<char>)
    ensures
        needs_quotes(value) ==> {
            let cell = csv_cell(value);
            &&& cell.len() >= 2
            &&& cell[0] == '"'
            &&& cell.last() == '"'
            &&& csv_unquoted(cell.subrange(1, cell.len() - 1)) == value
        },
        !needs_quotes(value) ==> csv_cell(value) == value && !value.contains('"')
            && !value.contains(','),
{
    reveal_strlit("\"");
    reveal_strlit("\"\"");
    if needs_quotes(value) {
        let inner = text::with_replaced(value, '"', "\"\""@);
        let cell = csv_cell(value);
        assert(cell.subrange(1, cell.len() - 1) == inner);
        quotes_pair_up(value);
    } else {
        assert forall|i: int| 0 <= i < value.len() implies value[i] != '"' && value[i] != ',' by {
            assert(!is_structural(value[i]));
        }
    }
}

proof fn quotes_pair_up(value: Seq<char>)
    ensures
        csv_unquoted(text::with_replaced(value, '"', "\"\""@)) == value,
    decreases value.len(),
{
    reveal_strlit("\"\"");
    if value.len() > 0 {
        let shorter = text::with_replaced(value.drop_last(), '"', "\"\""@);
        let whole = text::with_replaced(value, '"', "\"\""@);
        quotes_pair_up(value.drop_last());
        if value.last() == '"' {
            assert(whole.take(whole.len() - 2) == shorter);
        } else {
            assert(whole.drop_last() == shorter);
            assert(whole.last() == value.last());
        }
        assert(value.drop_last().push(value.last()) == value);
    }
}

/// A JSON string holds no character that a reader of JSON would not take inside one: quotes and
/// backslashes stand behind a backslash, and no control character stands in it at all.
pub proof fn json_string_has_no_control_characters(value: Seq<char>)
    ensures
        forall|i: int|
            0 <= i < json_string(value).len() ==> #[trigger] json_string(value)[i] > '\u{1f}',
{
    reveal_strlit("\"");
    json_chars_are_visible(value);
}

proof fn json_chars_are_visible(value: Seq<char>)
    ensures
        forall|i: int|
            0 <= i < json_chars(value).len() ==> #[trigger] json_chars(value)[i] > '\u{1f}',
    decreases value.len(),
{
    if value.len() > 0 {
        json_chars_are_visible(value.drop_last());
        reveal_strlit("\\\"");
        reveal_strlit("\\\\");
        reveal_strlit("\\n");
        reveal_strlit("\\r");
        reveal_strlit("\\t");
        reveal_strlit("\\u00");
        let shown = json_char(value.last());
        assert forall|i: int| 0 <= i < shown.len() implies #[trigger] shown[i] > '\u{1f}' by {}
        let before = json_chars(value.drop_last());
        assert forall|i: int| 0 <= i < json_chars(value).len() implies #[trigger] json_chars(
            value,
        )[i] > '\u{1f}' by {
            if i < before.len() {
                assert(json_chars(value)[i] == before[i]);
            } else {
                assert(json_chars(value)[i] == shown[i - before.len()]);
            }
        }
    }
}

/// The character that an escape at the start of a text denotes in JSON, and how many characters the
/// escape takes: `None` where no escape stands there. Two escapes for one character are not read.
pub open spec fn json_escape_value(source: Seq<char>) -> Option<(char, int)> {
    if source.len() < 2 || source[0] != '\\' {
        None
    } else if source[1] == 'n' {
        Some(('\n', 2))
    } else if source[1] == 'r' {
        Some(('\r', 2))
    } else if source[1] == 't' {
        Some(('\t', 2))
    } else if source[1] == 'b' {
        Some(('\u{8}', 2))
    } else if source[1] == 'f' {
        Some(('\u{c}', 2))
    } else if source[1] == '"' || source[1] == '\\' || source[1] == '/' {
        Some((source[1], 2))
    } else if source[1] == 'u' && source.len() >= 6 {
        match number::scalar_value(source.subrange(2, 6)) {
            Some(ch) => Some((ch, 6)),
            None => None,
        }
    } else {
        None
    }
}

/// The text that a JSON string denotes, read from behind its opening quote: `None` where it does not
/// end in a quote, ends before its last character, or holds what a JSON string cannot hold.
pub open spec fn json_chars_value(source: Seq<char>) -> Option<Seq<char>>
    decreases source.len(),
{
    if source.len() == 0 {
        None
    } else if source[0] == '"' {
        if source.len() == 1 {
            Some(Seq::empty())
        } else {
            None
        }
    } else if source[0] == '\\' {
        match json_escape_value(source) {
            Some((ch, length)) => match json_chars_value(source.skip(length)) {
                Some(rest) => Some(seq![ch] + rest),
                None => None,
            },
            None => None,
        }
    } else if source[0] <= '\u{1f}' {
        None
    } else {
        match json_chars_value(source.skip(1)) {
            Some(rest) => Some(seq![source[0]] + rest),
            None => None,
        }
    }
}

/// The text that a JSON string denotes, or `None` where it is none.
pub open spec fn json_value(source: Seq<char>) -> Option<Seq<char>> {
    if source.len() > 0 && source[0] == '"' {
        json_chars_value(source.skip(1))
    } else {
        None
    }
}

/// A JSON string denotes the text that was written, whatever the text holds.
pub proof fn json_string_reads_back(value: Seq<char>)
    ensures
        json_value(json_string(value)) == Some(value),
{
    reveal_strlit("\"");
    let quote = "\""@;
    assert(json_chars_value(quote) == Some(Seq::<char>::empty())) by {
        assert(quote.len() == 1);
        assert(quote[0] == '"');
    }
    json_prefix_reads_back(value, quote, Seq::empty());
    assert(value + Seq::<char>::empty() == value);
    assert(json_string(value).skip(1) == json_chars(value) + quote);
}

proof fn json_number_reads_back(ch: char, rest: Seq<char>)
    requires
        ch <= '\u{1f}',
    ensures
        ({
            let source = "\\u00"@ + number::hex_byte(ch as u8) + rest;
            json_escape_value(source) == Some((ch, 6int)) && source.skip(6) == rest
        }),
{
    reveal_strlit("\\u00");
    let source = "\\u00"@ + number::hex_byte(ch as u8) + rest;
    assert(source.subrange(2, 6) == seq!['0', '0'] + number::hex_byte(ch as u8));
    number::hex_byte_reads_back(ch as u8);
    assert(source.skip(6) == rest);
}

proof fn json_prefix_reads_back(value: Seq<char>, rest: Seq<char>, read: Seq<char>)
    requires
        json_chars_value(rest) == Some(read),
    ensures
        json_chars_value(json_chars(value) + rest) == Some(value + read),
    decreases value.len(),
{
    if value.len() == 0 {
        assert(json_chars(value) + rest == rest);
        assert(value + read == read);
    } else {
        let shorter = value.drop_last();
        let last = value.last();
        let piece = json_char(last);
        reveal_strlit("\\\"");
        reveal_strlit("\\\\");
        reveal_strlit("\\n");
        reveal_strlit("\\r");
        reveal_strlit("\\t");
        reveal_strlit("\\u00");
        let tail = piece + rest;
        if piece.len() == 2 {
            assert(tail.skip(2) == rest);
        } else if piece.len() == 1 {
            assert(tail.skip(1) == rest);
        } else {
            json_number_reads_back(last, rest);
        }
        assert(json_chars_value(tail) == Some(seq![last] + read));
        json_prefix_reads_back(shorter, tail, seq![last] + read);
        assert(json_chars(value) + rest == json_chars(shorter) + tail);
        assert(shorter + (seq![last] + read) == value + read);
    }
}

/// Where a column starts in a line.
pub open spec fn column_start(widths: Seq<usize>, index: int) -> int
    decreases index,
{
    if index <= 0 {
        0
    } else {
        column_start(widths, index - 1) + widths[index - 1] + 2
    }
}

/// Cells that fit into their columns stand in them: each starts where its column starts, or ends
/// where it ends, whatever the cells in front of it are.
pub proof fn cells_stand_in_their_columns(
    values: Seq<Seq<char>>,
    widths: Seq<usize>,
    right_aligned: Seq<bool>,
    index: int,
)
    requires
        values.len() <= widths.len(),
        values.len() <= right_aligned.len(),
        forall|k: int| 0 <= k < values.len() ==> (#[trigger] values[k]).len() <= widths[k],
        0 <= index < values.len(),
    ensures
        ({
            let line = padded_cells(values, widths, right_aligned);
            let start = column_start(widths, index);
            let end = start + widths[index];
            &&& line.len() == column_start(widths, values.len() as int) - 2
            &&& 0 <= start <= end <= line.len()
            &&& right_aligned[index] ==> line.subrange(end - values[index].len(), end)
                == values[index]
            &&& !right_aligned[index] ==> line.subrange(start, start + values[index].len())
                == values[index]
        }),
    decreases values.len(),
{
    reveal_strlit("  ");
    assert("  "@.len() == 2);
    let last = values.len() - 1;
    let shorter = values.drop_last();
    let before = padded_cells(shorter, widths, right_aligned);
    let line = padded_cells(values, widths, right_aligned);
    let cell = padded_cell(values[last], widths[last] as nat, right_aligned[last]);
    text::padding_fills_up(values[last], widths[last] as nat, ' ');
    assert(cell.len() == widths[last]);
    starts_grow(widths, index);
    if last > 0 {
        assert forall|k: int| 0 <= k < shorter.len() implies (#[trigger] shorter[k]).len()
            <= widths[k] by {
            assert(values[k] == shorter[k]);
        }
        cells_stand_in_their_columns(
            shorter,
            widths,
            right_aligned,
            if index < last {
                index
            } else {
                0
            },
        );
        assert(line == before + "  "@ + cell);
    } else {
        assert(before == Seq::<char>::empty());
        assert(line == cell);
        reveal_with_fuel(column_start, 2);
    }
    let start = column_start(widths, index);
    let end = start + widths[index];
    let length = values[index].len() as int;
    if index < last {
        assert(shorter[index] == values[index]);
        if right_aligned[index] {
            assert(line.subrange(end - length, end) == before.subrange(end - length, end));
        } else {
            assert(line.subrange(start, start + length) == before.subrange(start, start + length));
        }
    } else {
        assert(line.subrange(start, end) == cell);
        if right_aligned[index] {
            assert(line.subrange(end - length, end) == cell.skip(cell.len() - length));
        } else {
            assert(line.subrange(start, start + length) == cell.take(length));
        }
    }
}

proof fn starts_grow(widths: Seq<usize>, index: int)
    requires
        0 <= index,
    ensures
        column_start(widths, index) >= 0,
    decreases index,
{
    if index > 0 {
        starts_grow(widths, index - 1);
    }
}

/// A cell without quotes holds nothing that ends a cell or a line.
pub proof fn bare_cells_end_nothing(value: Seq<char>)
    ensures
        csv_cell(value) == value || csv_cell(value)[0] == '"',
        value.contains(',') || value.contains('"') || value.contains('\n') || value.contains('\r')
            <==> csv_cell(value) != value,
{
    reveal_strlit("\"");
    reveal_strlit("\"\"");
    if needs_quotes(value) {
        let i = choose|i: int| 0 <= i < value.len() && is_structural(#[trigger] value[i]);
        assert(value.contains(value[i]));
        replaced_is_no_shorter(value);
        assert(csv_cell(value).len() >= value.len() + 2);
    } else {
        assert forall|ch: char| value.contains(ch) implies !is_structural(ch) by {
            let i = choose|i: int| 0 <= i < value.len() && value[i] == ch;
            assert(!is_structural(value[i]));
        }
    }
}

proof fn replaced_is_no_shorter(value: Seq<char>)
    ensures
        text::with_replaced(value, '"', "\"\""@).len() >= value.len(),
    decreases value.len(),
{
    reveal_strlit("\"\"");
    if value.len() > 0 {
        replaced_is_no_shorter(value.drop_last());
    }
}

/// A bar inside a Markdown cell stands behind a backslash, so that it ends no cell.
pub proof fn bars_in_cells_are_escaped(value: Seq<char>, index: int)
    requires
        0 <= index < text::with_replaced(value, '|', "\\|"@).len(),
        text::with_replaced(value, '|', "\\|"@)[index] == '|',
    ensures
        index > 0,
        text::with_replaced(value, '|', "\\|"@)[index - 1] == '\\',
    decreases value.len(),
{
    reveal_strlit("\\|");
    let shorter = text::with_replaced(value.drop_last(), '|', "\\|"@);
    if index < shorter.len() {
        bars_in_cells_are_escaped(value.drop_last(), index);
    }
}

/// A row of a Markdown table shows each of its cells between bars, in their order.
pub proof fn markdown_cells_stand_between_bars(front: Seq<Seq<char>>, back: Seq<Seq<char>>)
    ensures
        markdown_cells(front + back) == markdown_cells(front) + markdown_cells(back),
        front.len() > 0 ==> text::has_suffix(markdown_cells(front), " |"@),
    decreases back.len(),
{
    reveal_strlit(" |");
    if front.len() > 0 {
        let cells = markdown_cells(front);
        assert(cells.skip(cells.len() - 2) == " |"@);
    }
    if back.len() == 0 {
        assert(front + back == front);
    } else {
        assert((front + back).drop_last() == front + back.drop_last());
        markdown_cells_stand_between_bars(front, back.drop_last());
        assert(markdown_cells(front + back) == markdown_cells(front) + markdown_cells(back));
    }
}

} // verus!

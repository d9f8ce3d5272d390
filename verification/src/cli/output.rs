//! Diagnostics, confirmations and tables.

use crate::formatting::render;
use crate::formatting::rows;
use crate::text;
use crate::toml;
use vstd::prelude::*;
use vstd::string::*;

verus! {

/// How a diagnostic is meant.
#[derive(Debug, Clone, Copy, PartialEq, Eq, Structural)]
pub enum LogKind {
    Error,
    Warning,
    Success,
    Info,
}

impl LogKind {
    /// The color code of a diagnostic.
    pub open spec fn code(self) -> Seq<char> {
        match self {
            LogKind::Error => "38;2;248;81;73"@,
            LogKind::Warning => "38;2;227;179;65"@,
            LogKind::Success => "38;2;63;185;80"@,
            LogKind::Info => "38;2;139;148;158"@,
        }
    }

    /// The color code of a diagnostic.
    pub fn color_code(self) -> (result: &'static str)
        ensures
            result@ == self.code(),
    {
        match self {
            LogKind::Error => "38;2;248;81;73",
            LogKind::Warning => "38;2;227;179;65",
            LogKind::Success => "38;2;63;185;80",
            LogKind::Info => "38;2;139;148;158",
        }
    }
}

/// A diagnostic, painted where colors are wanted.
pub fn log_line(color: bool, kind: LogKind, message: &str) -> (result: String)
    ensures
        result@ == toml::painted(color, kind.code(), message@),
{
    toml::paint(color, kind.color_code(), message)
}

/// What is said of one link in a chain of errors.
pub open spec fn error_line(chain: Seq<Seq<char>>, index: int) -> Seq<char> {
    if index == 0 {
        "error: "@ + chain[index]
    } else {
        "  caused by: "@ + chain[index]
    }
}

/// The lines that report an error and what caused it, one behind the other.
pub fn error_report(color: bool, chain: &[String]) -> (result: Vec<String>)
    ensures
        result@.len() == chain@.len(),
        forall|i: int|
            0 <= i < chain@.len() ==> (#[trigger] result@[i])@ == toml::painted(
                color,
                LogKind::Error.code(),
                error_line(text::views(chain@), i),
            ),
{
    let ghost texts = text::views(chain@);
    let mut lines: Vec<String> = Vec::new();
    let mut i: usize = 0;
    while i < chain.len()
        invariant
            i <= chain@.len(),
            texts == text::views(chain@),
            lines@.len() == i,
            forall|j: int|
                0 <= j < i ==> (#[trigger] lines@[j])@ == toml::painted(
                    color,
                    LogKind::Error.code(),
                    error_line(texts, j),
                ),
        decreases chain@.len() - i,
    {
        let mut line: String = (if i == 0 {
            "error: "
        } else {
            "  caused by: "
        }).to_owned();
        line.append(chain[i].as_str());
        lines.push(log_line(color, LogKind::Error, line.as_str()));
        i = i + 1;
    }
    lines
}

/// How a destructive operation goes on.
#[derive(Debug, Clone, Copy, PartialEq, Eq, Structural)]
pub enum Confirmation {
    Proceed,
    Refuse,
    Ask,
}

/// Whether a destructive operation goes on: at once where that was agreed to beforehand, after a
/// question where there is somebody to ask, and else not at all.
pub fn confirmation(assume_yes: bool, terminal: bool) -> (result: Confirmation)
    ensures
        result == if assume_yes {
            Confirmation::Proceed
        } else if terminal {
            Confirmation::Ask
        } else {
            Confirmation::Refuse
        },
{
    if assume_yes {
        Confirmation::Proceed
    } else if terminal {
        Confirmation::Ask
    } else {
        Confirmation::Refuse
    }
}

/// Why a destructive operation is refused where there is nobody to ask.
pub fn confirmation_refusal() -> (result: &'static str)
    ensures
        result@
            == "refusing to proceed without confirmation because stdin is not a terminal; pass --yes to confirm"@,
{
    "refusing to proceed without confirmation because stdin is not a terminal; pass --yes to confirm"
}

/// Whether an answer says yes.
pub open spec fn says_yes(answer: Seq<char>) -> bool {
    text::alike(text::trimmed(answer), "y"@) || text::alike(text::trimmed(answer), "yes"@)
}

/// Whether an answer says yes.
pub fn is_yes(answer: &str) -> (result: bool)
    ensures
        result == says_yes(answer@),
{
    let word: String = text::trim(answer);
    text::same_but_case(word.as_str(), "y") || text::same_but_case(word.as_str(), "yes")
}

/// The texts of the cells of a table.
pub open spec fn row_views(rows: Seq<Vec<String>>) -> Seq<Seq<Seq<char>>> {
    rows.map_values(|row: Vec<String>| text::views(row@))
}

/// The cells of one column.
pub open spec fn column(rows: Seq<Seq<Seq<char>>>, index: int) -> Seq<Seq<char>> {
    rows.map_values(|row: Seq<Seq<char>>| row[index])
}

/// The width of each column: that of its longest cell or its header.
pub open spec fn table_widths(headers: Seq<Seq<char>>, rows: Seq<Seq<Seq<char>>>) -> Seq<usize> {
    Seq::new(
        headers.len(),
        |i: int| render::longest(column(rows, i), headers[i].len()) as usize,
    )
}

/// A line of cells in their columns.
pub open spec fn table_line(values: Seq<Seq<char>>, widths: Seq<usize>, right: Seq<bool>) -> Seq<
    char,
> {
    rows::padded_cells(values, widths, right) + "\n"@
}

/// Lines of cells in their columns.
pub open spec fn table_lines(
    rows: Seq<Seq<Seq<char>>>,
    widths: Seq<usize>,
    right: Seq<bool>,
) -> Seq<char>
    decreases rows.len(),
{
    if rows.len() == 0 {
        Seq::empty()
    } else {
        table_lines(rows.drop_last(), widths, right) + table_line(rows.last(), widths, right)
    }
}

/// A table: headers to the left of their columns, and cells as their columns are aligned.
pub open spec fn table_text(
    headers: Seq<Seq<char>>,
    rows: Seq<Seq<Seq<char>>>,
    right: Seq<bool>,
) -> Seq<char> {
    let widths = table_widths(headers, rows);
    table_line(headers, widths, Seq::new(headers.len(), |i: int| false)) + table_lines(
        rows,
        widths,
        right,
    )
}

fn push_table_line(
    out: &mut String,
    values: &Vec<String>,
    widths: &Vec<usize>,
    right: &[bool],
    head: bool,
)
    requires
        values@.len() <= widths@.len(),
        values@.len() <= right@.len(),
    ensures
        final(out)@ == old(out)@ + table_line(
            text::views(values@),
            widths@,
            if head {
                Seq::new(values@.len(), |i: int| false)
            } else {
                right@
            },
        ),
{
    let ghost texts = text::views(values@);
    let ghost before = out@;
    let ghost sides = if head {
        Seq::new(values@.len(), |i: int| false)
    } else {
        right@
    };
    let mut i: usize = 0;
    assert(texts.take(0) == Seq::<Seq<char>>::empty());
    assert(out@ == before + rows::padded_cells(texts.take(0), widths@, sides));
    while i < values.len()
        invariant
            i <= values@.len() <= widths@.len(),
            values@.len() <= right@.len(),
            texts == text::views(values@),
            sides == if head {
                Seq::new(values@.len(), |i: int| false)
            } else {
                right@
            },
            out@ == before + rows::padded_cells(texts.take(i as int), widths@, sides),
        decreases values@.len() - i,
    {
        assert(texts.take(i as int + 1).drop_last() == texts.take(i as int));
        if i > 0 {
            out.append("  ");
        }
        if !head && right[i] {
            text::push_padded_left(out, values[i].as_str(), widths[i], ' ');
        } else {
            text::push_padded_right(out, values[i].as_str(), widths[i], ' ');
        }
        i = i + 1;
        assert(out@ == before + rows::padded_cells(texts.take(i as int), widths@, sides));
    }
    assert(texts.take(i as int) == texts);
    out.append("\n");
    assert(out@ == before + table_line(texts, widths@, sides));
}

/// Widens the columns of a table where the cells of one more row need it.
fn widen(widths: &mut Vec<usize>, row: &Vec<String>)
    requires
        old(widths)@.len() == row@.len(),
    ensures
        final(widths)@.len() == row@.len(),
        forall|j: int|
            0 <= j < row@.len() ==> (#[trigger] final(widths)@[j]) == if row@[j]@.len() > old(
                widths,
            )@[j] {
                row@[j]@.len() as int
            } else {
                old(widths)@[j] as int
            },
{
    let ghost before = widths@;
    let mut i: usize = 0;
    while i < row.len()
        invariant
            i <= row@.len() == widths@.len(),
            before.len() == widths@.len(),
            before == old(widths)@,
            forall|j: int|
                0 <= j < i ==> (#[trigger] widths@[j]) == if row@[j]@.len() > before[j] {
                    row@[j]@.len() as int
                } else {
                    before[j] as int
                },
            forall|j: int| i <= j < row@.len() ==> #[trigger] widths@[j] == before[j],
        decreases row@.len() - i,
    {
        let length: usize = row[i].as_str().unicode_len();
        if length > widths[i] {
            widths.set(i, length);
        }
        i = i + 1;
    }
}

/// A table with its headers and its rows in columns.
pub fn aligned_table(headers: &Vec<String>, rows: &Vec<Vec<String>>, right_align: &[bool]) -> (result:
    String)
    requires
        headers@.len() == right_align@.len(),
        forall|i: int| 0 <= i < rows@.len() ==> (#[trigger] rows@[i])@.len() == headers@.len(),
    ensures
        result@ == table_text(text::views(headers@), row_views(rows@), right_align@),
{
    let ghost names = text::views(headers@);
    let ghost texts = row_views(rows@);
    let mut widths: Vec<usize> = Vec::new();
    let mut i: usize = 0;
    while i < headers.len()
        invariant
            i <= headers@.len(),
            widths@.len() == i,
            forall|j: int| 0 <= j < i ==> #[trigger] widths@[j] == headers@[j]@.len(),
        decreases headers@.len() - i,
    {
        widths.push(headers[i].as_str().unicode_len());
        i = i + 1;
    }
    let mut r: usize = 0;
    proof {
        assert forall|j: int| 0 <= j < headers@.len() implies #[trigger] widths@[j]
            == render::longest(column(texts.take(0), j), names[j].len()) by {
            assert(column(texts.take(0), j) == Seq::<Seq<char>>::empty());
        }
    }
    while r < rows.len()
        invariant
            r <= rows@.len(),
            names == text::views(headers@),
            texts == row_views(rows@),
            widths@.len() == headers@.len(),
            forall|i: int| 0 <= i < rows@.len() ==> (#[trigger] rows@[i])@.len() == headers@.len(),
            forall|j: int|
                0 <= j < headers@.len() ==> #[trigger] widths@[j] == render::longest(
                    column(texts.take(r as int), j),
                    names[j].len(),
                ),
        decreases rows@.len() - r,
    {
        let row: &Vec<String> = &rows[r];
        let ghost before = widths@;
        widen(&mut widths, row);
        proof {
            assert forall|j: int| 0 <= j < headers@.len() implies #[trigger] widths@[j]
                == render::longest(column(texts.take(r as int + 1), j), names[j].len()) by {
                let cells = column(texts.take(r as int + 1), j);
                assert(cells.drop_last() == column(texts.take(r as int), j));
                assert(cells.last() == row@[j]@);
                assert(before[j] == render::longest(
                    column(texts.take(r as int), j),
                    names[j].len(),
                ));
            }
        }
        r = r + 1;
    }
    assert(texts.take(r as int) == texts);
    assert(widths@ == table_widths(names, texts));
    let mut out: String = String::new();
    push_table_line(&mut out, headers, &widths, right_align, true);
    let ghost head = out@;
    assert(head == table_line(names, widths@, Seq::new(names.len(), |i: int| false)));
    let mut k: usize = 0;
    assert(texts.take(0) == Seq::<Seq<Seq<char>>>::empty());
    assert(out@ == head + table_lines(texts.take(0), widths@, right_align@));
    while k < rows.len()
        invariant
            k <= rows@.len(),
            texts == row_views(rows@),
            widths@.len() == headers@.len() == right_align@.len(),
            forall|i: int| 0 <= i < rows@.len() ==> (#[trigger] rows@[i])@.len() == headers@.len(),
            out@ == head + table_lines(texts.take(k as int), widths@, right_align@),
        decreases rows@.len() - k,
    {
        push_table_line(&mut out, &rows[k], &widths, right_align, false);
        k = k + 1;
        assert(texts.take(k as int).drop_last() == texts.take(k - 1));
        assert(out@ == head + table_lines(texts.take(k as int), widths@, right_align@));
    }
    assert(texts.take(k as int) == texts);
    out
}

/// The characters that columns take up with two spaces between each two.
pub open spec fn line_width(widths: Seq<usize>) -> nat
    decreases widths.len(),
{
    if widths.len() == 0 {
        0
    } else if widths.len() == 1 {
        widths[0] as nat
    } else {
        line_width(widths.drop_last()) + 2 + widths.last() as nat
    }
}

/// A table is aligned: its header and all of its rows are equally long.
pub proof fn table_lines_are_aligned(
    headers: Seq<Seq<char>>,
    rows: Seq<Seq<Seq<char>>>,
    right: Seq<bool>,
    row: int,
)
    requires
        0 <= row < rows.len(),
        forall|i: int| 0 <= i < rows.len() ==> (#[trigger] rows[i]).len() == headers.len(),
        forall|i: int, j: int|
            0 <= i < rows.len() && 0 <= j < headers.len() ==> (#[trigger] rows[i][j]).len()
                <= usize::MAX,
        forall|j: int| 0 <= j < headers.len() ==> (#[trigger] headers[j]).len() <= usize::MAX,
    ensures
        table_line(rows[row], table_widths(headers, rows), right).len() == table_line(
            headers,
            table_widths(headers, rows),
            Seq::new(headers.len(), |i: int| false),
        ).len(),
{
    let widths = table_widths(headers, rows);
    assert forall|j: int| 0 <= j < headers.len() implies (#[trigger] headers[j]).len() <= widths[j]
        && rows[row][j].len() <= widths[j] by {
        let cells = column(rows, j);
        assert forall|k: int| 0 <= k < cells.len() implies (#[trigger] cells[k]).len()
            <= usize::MAX by {
            assert(cells[k] == rows[k][j]);
        }
        longest_is_reached(cells, headers[j].len(), row);
        assert(cells[row] == rows[row][j]);
    }
    padded_cells_length(rows[row], widths, right);
    padded_cells_length(headers, widths, Seq::new(headers.len(), |i: int| false));
}

proof fn longest_is_reached(values: Seq<Seq<char>>, least: nat, index: int)
    requires
        0 <= index < values.len(),
        least <= usize::MAX,
        forall|k: int| 0 <= k < values.len() ==> (#[trigger] values[k]).len() <= usize::MAX,
    ensures
        values[index].len() <= render::longest(values, least),
        least <= render::longest(values, least) <= usize::MAX,
    decreases values.len(),
{
    let shorter = values.drop_last();
    if shorter.len() > 0 {
        longest_is_reached(
            shorter,
            least,
            if index < shorter.len() {
                index
            } else {
                0
            },
        );
    } else {
        assert(render::longest(shorter, least) == least);
    }
    assert(values.last() == values[values.len() - 1]);
}

proof fn padded_cells_length(values: Seq<Seq<char>>, widths: Seq<usize>, right: Seq<bool>)
    requires
        values.len() <= widths.len(),
        forall|j: int| 0 <= j < values.len() ==> (#[trigger] values[j]).len() <= widths[j],
    ensures
        rows::padded_cells(values, widths, right).len() == line_width(
            widths.take(values.len() as int),
        ),
    decreases values.len(),
{
    let taken = widths.take(values.len() as int);
    if values.len() > 0 {
        let last = values.len() - 1;
        padded_cells_length(values.drop_last(), widths, right);
        assert(taken.drop_last() == widths.take(last as int));
        reveal_strlit("  ");
        assert("  "@.len() == 2);
        assert(values[last].len() <= widths[last]);
        assert(rows::padded_cell(values[last], widths[last] as nat, right[last]).len()
            == widths[last]);
        if last == 0 {
            assert(values.drop_last() == Seq::<Seq<char>>::empty());
            assert(taken.len() == 1);
        }
    }
}

/// An answer says yes exactly if it is `y` or `yes`, in small letters or capital ones, with any white
/// space around it; nothing else does, and no answer least of all.
pub proof fn only_yes_says_yes(answer: Seq<char>)
    ensures
        says_yes(answer) ==> text::trimmed(answer).len() == 1 || text::trimmed(answer).len() == 3,
        says_yes(answer) ==> text::trimmed(answer)[0] == 'y' || text::trimmed(answer)[0] == 'Y',
        text::trimmed(answer) == "y"@ || text::trimmed(answer) == "yes"@ || text::trimmed(answer)
            == "Y"@ || text::trimmed(answer) == "YES"@ || text::trimmed(answer) == "Yes"@
            ==> says_yes(answer),
{
    reveal_strlit("y");
    reveal_strlit("yes");
    reveal_strlit("Y");
    reveal_strlit("YES");
    reveal_strlit("Yes");
    let word = text::trimmed(answer);
    if text::alike(word, "y"@) {
        assert(text::small(word[0]) == text::small("y"@[0]));
    } else if text::alike(word, "yes"@) {
        assert(text::small(word[0]) == text::small("yes"@[0]));
    }
    if word == "Y"@ {
        assert(text::alike(word, "y"@));
    }
    if word == "YES"@ || word == "Yes"@ || word == "yes"@ {
        assert(text::alike(word, "yes"@));
    }
    if word == "y"@ {
        assert(text::alike(word, "y"@));
    }
}

/// No two kinds of diagnostics have the same color, and a diagnostic without color is its message.
pub proof fn diagnostics_have_their_own_colors(first: LogKind, second: LogKind, message: Seq<char>)
    ensures
        first.code() == second.code() ==> first == second,
        toml::painted(false, first.code(), message) == message,
{
    reveal_strlit("38;2;248;81;73");
    reveal_strlit("38;2;227;179;65");
    reveal_strlit("38;2;63;185;80");
    reveal_strlit("38;2;139;148;158");
    assert("38;2;248;81;73"@.len() == 14);
    assert("38;2;227;179;65"@.len() == 15);
    assert("38;2;63;185;80"@.len() == 14);
    assert("38;2;139;148;158"@.len() == 16);
    assert("38;2;248;81;73"@[5] == '2');
    assert("38;2;63;185;80"@[5] == '6');
}

/// A chain of errors is told from what failed to what caused it: every link in its own words, the
/// first as the error.
pub proof fn every_link_is_told(chain: Seq<Seq<char>>, index: int)
    requires
        0 <= index < chain.len(),
    ensures
        text::has_suffix(error_line(chain, index), chain[index]),
        "error: "@.is_prefix_of(error_line(chain, index)) <==> index == 0,
{
    reveal_strlit("error: ");
    reveal_strlit("  caused by: ");
    let line = error_line(chain, index);
    let words = chain[index];
    assert(line.skip(line.len() - words.len()) == words);
    if index == 0 {
        assert("error: "@.is_prefix_of(line));
    } else {
        assert(line[0] == ' ');
        if "error: "@.is_prefix_of(line) {
            assert("error: "@[0] == line[0]);
        }
    }
}

/// A table shows every cell of a row in its column, and every column is as wide as its widest cell
/// and its header.
pub proof fn tables_show_every_cell(
    headers: Seq<Seq<char>>,
    table: Seq<Seq<Seq<char>>>,
    right: Seq<bool>,
    row: int,
    index: int,
)
    requires
        0 <= row < table.len(),
        0 <= index < headers.len(),
        right.len() == headers.len(),
        forall|i: int| 0 <= i < table.len() ==> (#[trigger] table[i]).len() == headers.len(),
        forall|i: int, j: int|
            0 <= i < table.len() && 0 <= j < headers.len() ==> (#[trigger] table[i][j]).len()
                <= usize::MAX,
        forall|j: int| 0 <= j < headers.len() ==> (#[trigger] headers[j]).len() <= usize::MAX,
    ensures
        ({
            let widths = table_widths(headers, table);
            let line = table_line(table[row], widths, right);
            let start = rows::column_start(widths, index);
            let end = start + widths[index];
            let cell = table[row][index];
            &&& headers[index].len() <= widths[index]
            &&& cell.len() <= widths[index]
            &&& end < line.len()
            &&& right[index] ==> line.subrange(end - cell.len(), end) == cell
            &&& !right[index] ==> line.subrange(start, start + cell.len()) == cell
        }),
{
    reveal_strlit("\n");
    let widths = table_widths(headers, table);
    assert forall|j: int| 0 <= j < headers.len() implies (#[trigger] headers[j]).len() <= widths[j]
        && table[row][j].len() <= widths[j] by {
        let cells = column(table, j);
        assert forall|k: int| 0 <= k < cells.len() implies (#[trigger] cells[k]).len()
            <= usize::MAX by {
            assert(cells[k] == table[k][j]);
        }
        longest_is_reached(cells, headers[j].len(), row);
        assert(cells[row] == table[row][j]);
    }
    assert forall|k: int| 0 <= k < table[row].len() implies (#[trigger] table[row][k]).len()
        <= widths[k] by {
        assert(headers[k].len() <= widths[k]);
    }
    rows::cells_stand_in_their_columns(table[row], widths, right, index);
    let cells = rows::padded_cells(table[row], widths, right);
    let line = table_line(table[row], widths, right);
    let start = rows::column_start(widths, index);
    let end = start + widths[index];
    let cell = table[row][index];
    if right[index] {
        assert(line.subrange(end - cell.len(), end) == cells.subrange(end - cell.len(), end));
    } else {
        assert(line.subrange(start, start + cell.len()) == cells.subrange(
            start,
            start + cell.len(),
        ));
    }
}

/// The first line of a table shows each header at the start of its column.
pub proof fn headers_start_their_columns(
    headers: Seq<Seq<char>>,
    table: Seq<Seq<Seq<char>>>,
    right: Seq<bool>,
    index: int,
)
    requires
        0 <= index < headers.len(),
        forall|i: int| 0 <= i < table.len() ==> (#[trigger] table[i]).len() == headers.len(),
        forall|i: int, j: int|
            0 <= i < table.len() && 0 <= j < headers.len() ==> (#[trigger] table[i][j]).len()
                <= usize::MAX,
        forall|j: int| 0 <= j < headers.len() ==> (#[trigger] headers[j]).len() <= usize::MAX,
    ensures
        ({
            let start = rows::column_start(table_widths(headers, table), index);
            table_text(headers, table, right).subrange(start, start + headers[index].len())
                == headers[index]
        }),
{
    let widths = table_widths(headers, table);
    let left = Seq::new(headers.len(), |i: int| false);
    assert forall|j: int| 0 <= j < headers.len() implies (#[trigger] headers[j]).len()
        <= widths[j] by {
        let cells = column(table, j);
        assert forall|k: int| 0 <= k < cells.len() implies (#[trigger] cells[k]).len()
            <= usize::MAX by {
            assert(cells[k] == table[k][j]);
        }
        longest_is_at_least(cells, headers[j].len());
    }
    rows::cells_stand_in_their_columns(headers, widths, left, index);
    let cells = rows::padded_cells(headers, widths, left);
    let start = rows::column_start(widths, index);
    let whole = table_text(headers, table, right);
    assert(whole.subrange(start, start + headers[index].len()) == cells.subrange(
        start,
        start + headers[index].len(),
    ));
}

proof fn longest_is_at_least(values: Seq<Seq<char>>, least: nat)
    requires
        least <= usize::MAX,
        forall|k: int| 0 <= k < values.len() ==> (#[trigger] values[k]).len() <= usize::MAX,
    ensures
        least <= render::longest(values, least) <= usize::MAX,
    decreases values.len(),
{
    if values.len() > 0 {
        let shorter = values.drop_last();
        assert forall|k: int| 0 <= k < shorter.len() implies (#[trigger] shorter[k]).len()
            <= usize::MAX by {
            assert(values[k] == shorter[k]);
        }
        longest_is_at_least(shorter, least);
        assert(values[values.len() - 1].len() <= usize::MAX);
    }
}

} // verus!

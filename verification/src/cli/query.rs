//! Showing frames: which of them, and in what format.

use crate::cli::inspect;
use crate::cli::inspect::{PreviewIndex, PreviewRow};
use crate::formatting::frame::FrameFormat;
use crate::number;
use crate::schema::{Schema, SchemaModel};
use crate::selection;
use crate::selection::FrameSelection;
use crate::text;
use crate::toml;
use crate::toml::{TomlModel, TomlWriter};
use std::ops::Range;
use vstd::prelude::*;
use vstd::string::*;

verus! {

/// The words of a command that shows frames: a format, and selectors.
pub struct DumpWords {
    pub format: Option<FrameFormat>,
    pub selectors: Seq<Seq<char>>,
}

/// The words of a command that shows frames, or why they are refused.
pub open spec fn dump_words(values: Seq<Seq<char>>) -> Result<DumpWords, Seq<char>>
    decreases values.len(),
{
    if values.len() == 0 {
        Ok(DumpWords { format: None, selectors: Seq::empty() })
    } else {
        match dump_words(values.drop_last()) {
            Err(message) => Err(message),
            Ok(words) => match FrameFormat::named(values.last()) {
                None => Ok(
                    DumpWords { selectors: words.selectors.push(values.last()), ..words },
                ),
                Some(format) => if words.format is Some {
                    Err("dump accepts at most one output format token"@)
                } else {
                    Ok(DumpWords { format: Some(format), ..words })
                },
            },
        }
    }
}

proof fn dump_error_stays(values: Seq<Seq<char>>, count: int)
    requires
        0 <= count <= values.len(),
        dump_words(values.take(count)) is Err,
    ensures
        dump_words(values) == dump_words(values.take(count)),
    decreases values.len() - count,
{
    if count < values.len() {
        assert(values.take(count + 1).drop_last() == values.take(count));
        dump_error_stays(values, count + 1);
    } else {
        assert(values.take(count) == values);
    }
}

/// The format and the selectors of a command that shows frames. Frames are shown raw where no
/// format is asked for.
pub fn parse_dump_target(values: &[String]) -> (result: Result<(FrameFormat, Vec<String>), String>)
    ensures
        match result {
            Ok((format, selectors)) => {
                &&& dump_words(text::views(values@)) is Ok
                &&& format == match dump_words(text::views(values@))->Ok_0.format {
                    Some(format) => format,
                    None => FrameFormat::Raw,
                }
                &&& text::views(selectors@) == dump_words(text::views(values@))->Ok_0.selectors
            },
            Err(message) => dump_words(text::views(values@)) == Err::<DumpWords, Seq<char>>(
                message@,
            ),
        },
{
    let ghost words = text::views(values@);
    let mut format: Option<FrameFormat> = None;
    let mut selectors: Vec<String> = Vec::new();
    let mut i: usize = 0;
    assert(words.take(0) == Seq::<Seq<char>>::empty());
    assert(text::views(selectors@) == Seq::<Seq<char>>::empty());
    while i < values.len()
        invariant
            i <= values@.len(),
            words == text::views(values@),
            dump_words(words.take(i as int)) == Ok::<DumpWords, Seq<char>>(
                DumpWords { format, selectors: text::views(selectors@) },
            ),
        decreases values@.len() - i,
    {
        let ghost before = text::views(selectors@);
        assert(words.take(i as int + 1).drop_last() == words.take(i as int));
        assert(words.take(i as int + 1).last() == values@[i as int]@);
        match FrameFormat::parse(values[i].as_str()) {
            Some(parsed) => {
                if format.is_some() {
                    proof {
                        dump_error_stays(words, i as int + 1);
                    }
                    return Err("dump accepts at most one output format token".to_owned());
                }
                format = Some(parsed);
            },
            None => {
                selectors.push(values[i].clone());
                assert(text::views(selectors@) == before.push(values@[i as int]@));
            },
        }
        i = i + 1;
    }
    assert(words.take(i as int) == words);
    let chosen: FrameFormat = match format {
        Some(format) => format,
        None => FrameFormat::Raw,
    };
    Ok((chosen, selectors))
}

/// The lines of a preview of selected frames, with the indexes of the frames in their file.
pub fn selection_preview(selection: &FrameSelection) -> (result: Vec<PreviewIndex>)
    requires
        selection.valid(),
    ensures
        result@.len() == inspect::preview_of(selection@.frame_count).len(),
        forall|i: int|
            0 <= i < result@.len() ==> #[trigger] result@[i] == match inspect::preview_of(
                selection@.frame_count,
            )[i] {
                PreviewIndex::Ellipsis => PreviewIndex::Ellipsis,
                PreviewIndex::Frame(position) => PreviewIndex::Frame(
                    selection::indexes(selection@.ranges)[position as int] as u64,
                ),
            },
{
    let count: u64 = selection.frame_count();
    let positions: Vec<PreviewIndex> = inspect::preview_indices(count);
    let mut rows: Vec<PreviewIndex> = Vec::new();
    let mut i: usize = 0;
    while i < positions.len()
        invariant
            i <= positions@.len(),
            selection.valid(),
            count == selection@.frame_count,
            positions@ == inspect::preview_of(count),
            rows@.len() == i,
            forall|j: int|
                0 <= j < i ==> #[trigger] rows@[j] == match positions@[j] {
                    PreviewIndex::Ellipsis => PreviewIndex::Ellipsis,
                    PreviewIndex::Frame(position) => PreviewIndex::Frame(
                        selection::indexes(selection@.ranges)[position as int] as u64,
                    ),
                },
        decreases positions@.len() - i,
    {
        match positions[i] {
            PreviewIndex::Ellipsis => rows.push(PreviewIndex::Ellipsis),
            PreviewIndex::Frame(position) => {
                assert(position < count);
                if let Some(index) = selection.index_at(position) {
                    rows.push(PreviewIndex::Frame(index));
                }
            },
        }
        i = i + 1;
    }
    rows
}

/// What is printed of frames that were looked for.
pub open spec fn find_doc(
    w: TomlModel,
    path: Seq<char>,
    selector_count: usize,
    ranges: Seq<Range<u64>>,
    schema: SchemaModel,
    rows: Seq<PreviewRow>,
) -> TomlModel {
    let w = w.section("find"@).kv_str("path"@, path).kv_num(
        "selector_count"@,
        selector_count as int,
    ).kv_num("range_count"@, ranges.len() as int);
    let w = if ranges.len() > 0 {
        w.kv_num("start_index"@, ranges[0].start as int).kv_num(
            "end_index"@,
            ranges.last().end as int,
        )
    } else {
        w
    };
    let w = w.kv_num("frame_count"@, selection::total_length(ranges));
    inspect::preview_doc(w, schema, rows)
}

/// Writes what is printed of frames that were looked for.
pub fn print_found(
    w: &mut TomlWriter,
    path: &str,
    selector_count: usize,
    selection: &FrameSelection,
    schema: &Schema,
    rows: &Vec<PreviewRow>,
)
    requires
        selection.valid(),
        schema.fields@.len() < usize::MAX,
        forall|i: int|
            0 <= i < rows@.len() ==> inspect::row_fits(schema@.fields, #[trigger] rows@[i]),
    ensures
        final(w)@ == find_doc(old(w)@, path@, selector_count, selection@.ranges, schema@, rows@),
{
    w.section("find");
    w.kv_str("path", path);
    w.kv_num("selector_count", selector_count);
    w.kv_num("range_count", selection.ranges().len());
    if let (Some(start), Some(end)) = (selection.first_index(), selection.end_index()) {
        w.kv_num("start_index", start);
        w.kv_num("end_index", end);
    }
    w.kv_num("frame_count", selection.frame_count());
    inspect::print_preview(w, schema, rows);
}

/// A command that shows frames takes the arguments that name a format for the format, all others for
/// selectors in their order, and refuses a second format wherever it stands.
pub proof fn formats_and_selectors_are_told_apart(values: Seq<Seq<char>>)
    ensures
        dump_words(values) is Err <==> exists|i: int, j: int|
            0 <= i < j < values.len() && FrameFormat::named(#[trigger] values[i]) is Some
                && FrameFormat::named(#[trigger] values[j]) is Some,
        dump_words(values) matches Ok(words) ==> {
            &&& words.selectors == values.filter(
                |value: Seq<char>| FrameFormat::named(value) is None,
            )
            &&& forall|i: int|
                0 <= i < values.len() && FrameFormat::named(#[trigger] values[i]) is Some
                    ==> words.format == FrameFormat::named(values[i])
            &&& words.format is Some ==> exists|i: int|
                0 <= i < values.len() && FrameFormat::named(#[trigger] values[i]) == words.format
        },
    decreases values.len(),
{
    reveal(Seq::filter);
    if values.len() > 0 {
        let shorter = values.drop_last();
        let last = values.len() - 1;
        formats_and_selectors_are_told_apart(shorter);
        assert(forall|i: int| 0 <= i < shorter.len() ==> #[trigger] shorter[i] == values[i]);
        assert(forall|i: int| 0 <= i < shorter.len() ==> #[trigger] values[i] == shorter[i]);
        assert(values[last] == values.last());
        if dump_words(shorter) is Ok {
            assert(dump_words(shorter)->Ok_0.format is Some ==> exists|i: int|
                0 <= i < last && FrameFormat::named(#[trigger] values[i]) is Some);
        }
    }
}

/// What was found is printed with the number of selectors, ranges and frames, and with the first
/// index that was found and the one behind the last: every frame that was found lies between them.
pub proof fn findings_are_said(
    w: TomlModel,
    path: Seq<char>,
    selector_count: usize,
    ranges: Seq<Range<u64>>,
    schema: SchemaModel,
    rows: Seq<PreviewRow>,
    index: int,
)
    requires
        !w.color,
        selection::is_canonical(ranges),
        selection::in_ranges(ranges, index),
    ensures
        ({
            let said = find_doc(w, path, selector_count, ranges, schema, rows);
            &&& said.says_text("path"@, path)
            &&& said.says_number("selector_count"@, selector_count as int)
            &&& said.says_number("range_count"@, ranges.len() as int)
            &&& said.says_number("frame_count"@, selection::total_length(ranges))
            &&& exists|start: int, end: int|
                start <= index < end && selection::in_ranges(ranges, start)
                    && selection::in_ranges(ranges, end - 1) && #[trigger] said.says_number(
                    "start_index"@,
                    start,
                ) && #[trigger] said.says_number("end_index"@, end)
        }),
{
    toml::headings_keep_what_is_said(w, "find"@);
    let w1 = w.section("find"@);
    toml::texts_are_said(w1, "path"@, path);
    let w2 = w1.kv_str("path"@, path);
    toml::values_are_said(w2, "selector_count"@, number::integer_text(selector_count as int));
    let w3 = w2.kv_num("selector_count"@, selector_count as int);
    toml::values_are_said(w3, "range_count"@, number::integer_text(ranges.len() as int));
    let w4 = w3.kv_num("range_count"@, ranges.len() as int);
    let start = ranges[0].start as int;
    let end = ranges.last().end as int;
    toml::values_are_said(w4, "start_index"@, number::integer_text(start));
    let w5 = w4.kv_num("start_index"@, start);
    toml::values_are_said(w5, "end_index"@, number::integer_text(end));
    let w6 = w5.kv_num("end_index"@, end);
    let count = selection::total_length(ranges);
    toml::values_are_said(w6, "frame_count"@, number::integer_text(count));
    let w7 = w6.kv_num("frame_count"@, count);
    inspect::preview_keeps_what_is_said(w7, schema, rows);
    let k = choose|k: int|
        0 <= k < ranges.len() && selection::in_range(#[trigger] ranges[k], index);
    let last = ranges.len() - 1;
    assert(ranges[0].start < ranges[0].end);
    assert(ranges[last].start < ranges[last].end);
    assert(k > 0 ==> ranges[0].end < ranges[k].start);
    assert(k < last ==> ranges[k].end < ranges[last].start);
    assert(selection::in_range(ranges[0], start));
    assert(selection::in_range(ranges[last], end - 1));
    let said = find_doc(w, path, selector_count, ranges, schema, rows);
    assert(said.says_number("start_index"@, start) && said.says_number("end_index"@, end));
}

} // verus!

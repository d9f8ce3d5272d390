//! Edits of a file: what a request means for the frames and the metadata of the file, and what the
//! editor knows of the file once the request has been carried out.

use crate::deletion;
use crate::deletion::validate_ranges;
use crate::error::{Error, Failure};
use crate::key::Key;
use crate::options::{FormatVersion, OperationOptions};
use crate::schema::{Schema, SchemaModel};
use crate::selection;
use crate::text;
use std::ops::Range;
use vstd::prelude::*;
use vstd::string::*;

verus! {

/// Frames that are to be deleted.
#[derive(Debug)]
pub struct Deletion {
    pub ranges: Vec<Range<u64>>,
    pub removed: u64,
}

/// The names and texts that a file is to carry.
#[derive(Debug)]
pub struct MetadataChange {
    pub frame_type: String,
    pub title: String,
    pub string_table: Vec<String>,
}

/// What an editor knows of the file that it edits.
pub struct Editor {
    pub format_version: FormatVersion,
    pub schema: Schema,
    pub title: String,
    pub string_table: Vec<String>,
    pub frame_count: u64,
    pub operation_options: OperationOptions,
}

/// One range as a list.
pub open spec fn single(start: u64, end: u64) -> Seq<Range<u64>> {
    seq![Range { start, end }]
}

/// Whether ranges start and end where others do.
pub open spec fn same_ranges(left: Seq<Range<u64>>, right: Seq<Range<u64>>) -> bool {
    &&& left.len() == right.len()
    &&& forall|k: int|
        0 <= k < left.len() ==> (#[trigger] left[k]).start == right[k].start && left[k].end
            == right[k].end
}

/// Whether keys come in order; equal ones may stand side by side.
pub open spec fn keys_in_order(keys: Seq<Key>) -> bool {
    forall|k: int| 0 <= k < keys.len() - 1 ==> !(#[trigger] keys[k + 1]).precedes(keys[k])
}

/// Whether indexes come in order, none of them twice.
pub open spec fn indexes_in_order(indices: Seq<u64>) -> bool {
    forall|k: int| 0 <= k < indices.len() - 1 ==> indices[k] < #[trigger] indices[k + 1]
}

/// What is left of ranges once what earlier ones hold is taken off each, without those of which
/// nothing is left.
pub open spec fn clipped(ranges: Seq<Range<u64>>) -> Seq<Range<u64>>
    decreases ranges.len(),
{
    if ranges.len() == 0 {
        Seq::empty()
    } else {
        let before = clipped(ranges.drop_last());
        let floor = if before.len() == 0 { 0 } else { before.last().end };
        let range = ranges.last();
        let start = if range.start < floor { floor } else { range.start };
        if start < range.end {
            before.push(Range { start, end: range.end })
        } else {
            before
        }
    }
}

impl Deletion {
    /// Whether the deletion is one of these ranges in a file of this many frames.
    pub open spec fn is_of(self, ranges: Seq<Range<u64>>, frame_count: u64) -> bool {
        &&& same_ranges(self.ranges@, ranges)
        &&& deletion::are_deletable(self.ranges@, frame_count)
        &&& self.removed == selection::total_length(self.ranges@)
        &&& self.removed <= frame_count
    }
}

/// Whether the outcome of a request for the deletion of ranges is the right one.
pub open spec fn deletes(
    result: Result<Deletion, Error>,
    ranges: Seq<Range<u64>>,
    frame_count: u64,
) -> bool {
    match result {
        Ok(deletion) => deletion.is_of(ranges, frame_count),
        Err(error) => deletion::deletion_refusal(ranges, frame_count) == Some(error@),
    }
}

/// Holds keys to their order; equal ones may stand side by side.
pub fn check_key_order(keys: &[Key]) -> (result: Result<(), Error>)
    requires
        forall|k: int| 0 <= k < keys@.len() ==> (#[trigger] keys@[k]).valid(),
        forall|k: int, l: int|
            0 <= k < l < keys@.len() ==> (#[trigger] keys@[k]).kind() == (
            #[trigger] keys@[l]).kind(),
    ensures
        match result {
            Ok(_) => keys_in_order(keys@),
            Err(error) => !keys_in_order(keys@) && error@ == Failure::UnsortedKeys,
        },
{
    let mut i: usize = 1;
    while i < keys.len()
        invariant
            1 <= i,
            forall|k: int| 0 <= k < keys@.len() ==> (#[trigger] keys@[k]).valid(),
            forall|k: int, l: int|
                0 <= k < l < keys@.len() ==> (#[trigger] keys@[k]).kind() == (
                #[trigger] keys@[l]).kind(),
            forall|k: int|
                0 <= k < i - 1 && k < keys@.len() - 1 ==> !(#[trigger] keys@[k + 1]).precedes(
                    keys@[k],
                ),
        decreases keys@.len() - i,
    {
        assert(keys@[i - 1].kind() == keys@[i as int].kind());
        if keys[i].is_before(&keys[i - 1]) {
            assert(keys@[(i - 1) + 1].precedes(keys@[i - 1]));
            return Err(Error::UnsortedKeys);
        }
        i = i + 1;
    }
    Ok(())
}

impl Editor {
    /// The format of the file.
    pub fn format_version(&self) -> (result: FormatVersion)
        ensures
            result == self.format_version,
    {
        self.format_version
    }

    /// The schema of the file.
    pub fn schema(&self) -> (result: &Schema)
        ensures
            *result == self.schema,
    {
        &self.schema
    }

    /// The title of the file.
    pub fn title(&self) -> (result: &str)
        ensures
            result@ == self.title@,
    {
        self.title.as_str()
    }

    /// The strings of the file.
    pub fn string_table(&self) -> (result: &[String])
        ensures
            result@ == self.string_table@,
    {
        self.string_table.as_slice()
    }

    /// How many frames the file holds.
    pub fn frame_count(&self) -> (result: u64)
        ensures
            result == self.frame_count,
    {
        self.frame_count
    }

    /// A request for the deletion of ranges of frames.
    pub fn delete_ranges(&self, ranges: Vec<Range<u64>>) -> (result: Result<Deletion, Error>)
        ensures
            deletes(result, ranges@, self.frame_count),
    {
        match validate_ranges(ranges.as_slice(), self.frame_count) {
            Ok(removed) => Ok(Deletion { ranges, removed }),
            Err(error) => Err(error),
        }
    }

    /// A request for the deletion of the frames between two indexes.
    pub fn delete_frames(&self, start: u64, end: u64) -> (result: Result<Deletion, Error>)
        ensures
            deletes(result, single(start, end), self.frame_count),
    {
        let mut ranges: Vec<Range<u64>> = Vec::new();
        ranges.push(start..end);
        assert(ranges@ == single(start, end));
        self.delete_ranges(ranges)
    }

    /// A request for the deletion of one frame; `None` where there is no such frame.
    pub fn delete_frame(&self, index: u64) -> (result: Option<Deletion>)
        ensures
            match result {
                Some(deletion) => index < self.frame_count && deletion.is_of(
                    single(index, (index + 1) as u64),
                    self.frame_count,
                ) && deletion.removed == 1,
                None => index >= self.frame_count,
            },
    {
        if index >= self.frame_count {
            return None;
        }
        match self.delete_frames(index, index + 1) {
            Ok(deletion) => {
                assert(deletion.ranges@.drop_last() == Seq::<Range<u64>>::empty());
                proof {
                    reveal_with_fuel(selection::total_length, 2);
                }
                Some(deletion)
            },
            Err(_) => {
                proof {
                    let range = single(index, (index + 1) as u64);
                    deletion::refused_unless_deletable(range, self.frame_count);
                }
                None
            },
        }
    }

    /// A request for the deletion of single frames, given in order.
    pub fn delete_indices(&self, indices: &[u64]) -> (result: Result<Deletion, Error>)
        ensures
            !indexes_in_order(indices@) ==> (result matches Err(error) && error@
                == Failure::InvalidSchema("frame indices must be strictly increasing"@)),
            indexes_in_order(indices@) && indices@.len() > 0 && indices@.last() == u64::MAX ==> (
            result matches Err(error) && error@ == (Failure::InvalidFrameRange {
                start: u64::MAX,
                end: u64::MAX,
                frame_count: self.frame_count,
            })),
            indexes_in_order(indices@) && !(indices@.len() > 0 && indices@.last() == u64::MAX)
                ==> deletes(
                result,
                Seq::new(
                    indices@.len(),
                    |k: int| Range { start: indices@[k], end: (indices@[k] + 1) as u64 },
                ),
                self.frame_count,
            ),
    {
        let mut i: usize = 1;
        while i < indices.len()
            invariant
                1 <= i,
                forall|k: int| 0 <= k < i - 1 && k < indices@.len() - 1 ==> indices@[k]
                    < #[trigger] indices@[k + 1],
            decreases indices@.len() - i,
        {
            if indices[i - 1] >= indices[i] {
                assert(!(indices@[i - 1] < indices@[(i - 1) + 1]));
                return Err(
                    Error::InvalidSchema("frame indices must be strictly increasing".to_owned()),
                );
            }
            i = i + 1;
        }
        assert(indexes_in_order(indices@));
        let ghost wanted = Seq::new(
            indices@.len(),
            |k: int| Range { start: indices@[k], end: (indices@[k] + 1) as u64 },
        );
        let mut ranges: Vec<Range<u64>> = Vec::new();
        let mut j: usize = 0;
        while j < indices.len()
            invariant
                j <= indices@.len(),
                indexes_in_order(indices@),
                wanted == Seq::new(
                    indices@.len(),
                    |k: int| Range { start: indices@[k], end: (indices@[k] + 1) as u64 },
                ),
                ranges@ == wanted.take(j as int),
                forall|k: int| 0 <= k < j ==> #[trigger] indices@[k] < u64::MAX,
            decreases indices@.len() - j,
        {
            let index: u64 = indices[j];
            match index.checked_add(1) {
                Some(end) => {
                    ranges.push(index..end);
                    assert(ranges@ == wanted.take(j as int + 1));
                },
                None => {
                    proof {
                        if j < indices@.len() - 1 {
                            assert(indices@[j as int] < indices@[j + 1]);
                        }
                    }
                    return Err(
                        Error::InvalidFrameRange {
                            start: index,
                            end: index,
                            frame_count: self.frame_count,
                        },
                    );
                },
            }
            j = j + 1;
        }
        assert(ranges@ == wanted);
        self.delete_ranges(ranges)
    }

    /// A request for the deletion of the frames of some keys, given in order with the range of
    /// frames of each.
    pub fn delete_keys(&self, keys: &[Key], equal_ranges: &[Range<u64>]) -> (result: Result<
        Deletion,
        Error,
    >)
        requires
            keys@.len() == equal_ranges@.len(),
            forall|k: int| 0 <= k < keys@.len() ==> (#[trigger] keys@[k]).valid(),
            forall|k: int, l: int|
                0 <= k < l < keys@.len() ==> (#[trigger] keys@[k]).kind() == (
                #[trigger] keys@[l]).kind(),
        ensures
            !keys_in_order(keys@) ==> (result matches Err(error) && error@
                == Failure::UnsortedKeys),
            keys_in_order(keys@) ==> deletes(result, clipped(equal_ranges@), self.frame_count),
    {
        if let Err(error) = check_key_order(keys) {
            return Err(error);
        }
        let mut ranges: Vec<Range<u64>> = Vec::new();
        let mut minimum: u64 = 0;
        let mut j: usize = 0;
        assert(equal_ranges@.take(0) == Seq::<Range<u64>>::empty());
        while j < equal_ranges.len()
            invariant
                j <= equal_ranges@.len(),
                ranges@ == clipped(equal_ranges@.take(j as int)),
                minimum == if ranges@.len() == 0 {
                    0
                } else {
                    ranges@.last().end
                },
            decreases equal_ranges@.len() - j,
        {
            assert(equal_ranges@.take(j as int + 1).drop_last() == equal_ranges@.take(j as int));
            let start: u64 = if equal_ranges[j].start < minimum {
                minimum
            } else {
                equal_ranges[j].start
            };
            let end: u64 = equal_ranges[j].end;
            if start < end {
                minimum = end;
                ranges.push(start..end);
            }
            j = j + 1;
        }
        assert(equal_ranges@.take(j as int) == equal_ranges@);
        self.delete_ranges(ranges)
    }

    /// A request for the deletion of the frames whose keys lie between two, both included, given
    /// how many frames have a key below the first and how many have one up to the last.
    pub fn delete_key_range(&self, first: Key, last: Key, lower: u64, upper: u64) -> (result: Result<
        Deletion,
        Error,
    >)
        requires
            first.kind() == last.kind(),
            first.valid(),
            last.valid(),
        ensures
            last.precedes(first) ==> (result matches Ok(deletion) && deletion.ranges@.len() == 0
                && deletion.removed == 0),
            !last.precedes(first) ==> deletes(result, single(lower, upper), self.frame_count),
    {
        if last.is_before(&first) {
            return Ok(Deletion { ranges: Vec::new(), removed: 0 });
        }
        self.delete_frames(lower, upper)
    }

    /// A request for the deletion of the frames up to a key, given how many there are.
    pub fn delete_before(&self, upper: u64) -> (result: Result<Deletion, Error>)
        ensures
            deletes(result, single(0, upper), self.frame_count),
    {
        self.delete_frames(0, upper)
    }

    /// A request for the deletion of the frames from a key on, given how many lie in front.
    pub fn delete_after(&self, lower: u64) -> (result: Result<Deletion, Error>)
        ensures
            deletes(result, single(lower, self.frame_count), self.frame_count),
    {
        self.delete_frames(lower, self.frame_count)
    }

    /// A request for the deletion of the frames of one key, given where they are.
    pub fn delete_key(&self, equal_range: Range<u64>) -> (result: Result<Deletion, Error>)
        ensures
            deletes(result, single(equal_range.start, equal_range.end), self.frame_count),
    {
        self.delete_frames(equal_range.start, equal_range.end)
    }

    /// A request for the deletion of all frames.
    pub fn delete_all_frames(&self) -> (result: Result<Deletion, Error>)
        ensures
            result matches Ok(deletion) && deletion.is_of(
                single(0, self.frame_count),
                self.frame_count,
            ) && deletion.removed == self.frame_count,
    {
        proof {
            deletion::refused_unless_deletable(single(0, self.frame_count), self.frame_count);
        }
        let result = self.delete_frames(0, self.frame_count);
        proof {
            assert((result->Ok_0).ranges@.drop_last() == Seq::<Range<u64>>::empty());
            reveal_with_fuel(selection::total_length, 2);
        }
        result
    }

    /// Takes note of a deletion that has been carried out.
    pub fn deleted(&mut self, deletion: &Deletion)
        requires
            deletion.removed <= old(self).frame_count,
        ensures
            final(self).frame_count == old(self).frame_count - deletion.removed,
            final(self).format_version == old(self).format_version,
            final(self).schema == old(self).schema,
            final(self).title == old(self).title,
            final(self).string_table == old(self).string_table,
            final(self).operation_options == old(self).operation_options,
    {
        self.frame_count = self.frame_count - deletion.removed;
    }

    /// Whether a change gives a file these names and texts; no change is needed where it carries
    /// them already.
    pub open spec fn becomes(
        self,
        change: Option<MetadataChange>,
        frame_type: Seq<char>,
        title: Seq<char>,
        strings: Seq<Seq<char>>,
    ) -> bool {
        let carried = frame_type == self.schema.frame_type@ && title == self.title@ && strings
            == text::views(self.string_table@);
        match change {
            None => carried,
            Some(change) => !carried && change.frame_type@ == frame_type && change.title@ == title
                && text::views(change.string_table@) == strings,
        }
    }

    /// The names and texts that the file is to carry where some of them are replaced; `None` where
    /// it carries them already.
    pub fn update_metadata(
        &self,
        frame_type: Option<&str>,
        title: Option<&str>,
        string_table: Option<&[String]>,
    ) -> (result: Option<MetadataChange>)
        ensures
            self.becomes(
                result,
                match frame_type {
                    Some(value) => value@,
                    None => self.schema.frame_type@,
                },
                match title {
                    Some(value) => value@,
                    None => self.title@,
                },
                match string_table {
                    Some(values) => text::views(values@),
                    None => text::views(self.string_table@),
                },
            ),
    {
        let new_type: String = match frame_type {
            Some(value) => value.to_owned(),
            None => self.schema.frame_type.clone(),
        };
        let new_title: String = match title {
            Some(value) => value.to_owned(),
            None => self.title.clone(),
        };
        let new_strings: Vec<String> = match string_table {
            Some(values) => text::texts_from(values, 0),
            None => text::texts_from(self.string_table.as_slice(), 0),
        };
        assert(self.string_table@.skip(0) == self.string_table@);
        proof {
            if let Some(values) = string_table {
                assert(values@.skip(0) == values@);
            }
        }
        if text::same(new_type.as_str(), self.schema.frame_type.as_str()) && text::same(
            new_title.as_str(),
            self.title.as_str(),
        ) && text::same_texts(new_strings.as_slice(), self.string_table.as_slice()) {
            return None;
        }
        Some(
            MetadataChange { frame_type: new_type, title: new_title, string_table: new_strings },
        )
    }

    /// Takes note of names and texts that the file carries from now on.
    pub fn updated(&mut self, change: MetadataChange)
        ensures
            final(self).schema@ == (SchemaModel {
                frame_type: change.frame_type@,
                ..old(self).schema@
            }),
            final(self).title == change.title,
            final(self).string_table == change.string_table,
            final(self).frame_count == old(self).frame_count,
            final(self).format_version == old(self).format_version,
            final(self).operation_options == old(self).operation_options,
    {
        self.schema.frame_type = change.frame_type;
        self.title = change.title;
        self.string_table = change.string_table;
    }

    /// The change that gives the file another title.
    pub fn set_title(&self, title: &str) -> (result: Option<MetadataChange>)
        ensures
            self.becomes(
                result,
                self.schema.frame_type@,
                title@,
                text::views(self.string_table@),
            ),
    {
        self.update_metadata(None, Some(title), None)
    }

    /// The change that gives the frames another type name.
    pub fn set_frame_type(&self, frame_type: &str) -> (result: Option<MetadataChange>)
        ensures
            self.becomes(result, frame_type@, self.title@, text::views(self.string_table@)),
    {
        self.update_metadata(Some(frame_type), None, None)
    }

    /// The change that gives the file other strings.
    pub fn replace_string_table(&self, strings: &[String]) -> (result: Option<MetadataChange>)
        ensures
            self.becomes(
                result,
                self.schema.frame_type@,
                self.title@,
                text::views(strings@),
            ),
    {
        self.update_metadata(None, None, Some(strings))
    }

    /// The change that leaves the file no strings.
    pub fn clear_string_table(&self) -> (result: Option<MetadataChange>)
        ensures
            self.becomes(result, self.schema.frame_type@, self.title@, Seq::empty()),
    {
        let none: Vec<String> = Vec::new();
        assert(text::views(none@) == Seq::<Seq<char>>::empty());
        self.replace_string_table(none.as_slice())
    }

    /// The index that an appended string gets, and the string table with it.
    pub fn append_string(&self, value: &str) -> (result: Result<(u32, Vec<String>), Error>)
        ensures
            match result {
                Ok((index, strings)) => self.string_table@.len() <= u32::MAX && index
                    == self.string_table@.len() && text::views(strings@) == text::views(
                    self.string_table@,
                ).push(value@),
                Err(error) => self.string_table@.len() > u32::MAX && error@
                    == Failure::InvalidSchema("string table exceeds u32 entries"@),
            },
    {
        if self.string_table.len() > u32::MAX as usize {
            return Err(Error::InvalidSchema("string table exceeds u32 entries".to_owned()));
        }
        let mut strings: Vec<String> = text::texts_from(self.string_table.as_slice(), 0);
        assert(strings@ == self.string_table@);
        strings.push(value.to_owned());
        assert(text::views(strings@) == text::views(self.string_table@).push(value@));
        Ok((self.string_table.len() as u32, strings))
    }
}

/// Clipping leaves ranges in order that do not overlap, none of them empty.
pub proof fn clipped_ranges_are_apart(ranges: Seq<Range<u64>>)
    ensures
        forall|k: int|
            0 <= k < clipped(ranges).len() ==> (#[trigger] clipped(ranges)[k]).start < clipped(
                ranges,
            )[k].end,
        forall|k: int, l: int|
            0 <= k < l < clipped(ranges).len() ==> (#[trigger] clipped(ranges)[k]).end <= (
            #[trigger] clipped(ranges)[l]).start,
    decreases ranges.len(),
{
    if ranges.len() > 0 {
        clipped_ranges_are_apart(ranges.drop_last());
        let before = clipped(ranges.drop_last());
        let after = clipped(ranges);
        assert forall|k: int| 0 <= k < after.len() implies (#[trigger] after[k]).start
            < after[k].end by {
            if k < before.len() {
                assert(after[k] == before[k]);
            }
        }
        assert forall|k: int, l: int| 0 <= k < l < after.len() implies (#[trigger] after[k]).end
            <= (#[trigger] after[l]).start by {
            assert(after[k] == before[k]);
            if l < before.len() {
                assert(after[l] == before[l]);
            } else {
                let m = before.len() - 1;
                assert(before[k].end <= before[m].end);
            }
        }
    }
}

/// The frames of keys that come in order are the frames that go: clipping takes no frame off that
/// an earlier key does not take already, as long as the ranges come in the order of the keys.
pub proof fn clipping_keeps_the_union(ranges: Seq<Range<u64>>, index: int)
    requires
        forall|k: int, l: int|
            0 <= k < l < ranges.len() ==> (#[trigger] ranges[k]).start <= (
            #[trigger] ranges[l]).start && ranges[k].end <= ranges[l].end,
    ensures
        selection::in_ranges(clipped(ranges), index) <==> selection::in_ranges(ranges, index),
        clipped(ranges).len() > 0 ==> ranges.len() > 0 && clipped(ranges).last().end
            <= ranges.last().end,
    decreases ranges.len(),
{
    if ranges.len() > 0 {
        let shorter = ranges.drop_last();
        let before = clipped(shorter);
        let after = clipped(ranges);
        let range = ranges.last();
        clipping_keeps_the_union(shorter, index);
        if shorter.len() > 0 {
            assert(ranges[shorter.len() - 1].end <= ranges[ranges.len() - 1].end);
        }
        if selection::in_ranges(ranges, index) {
            let k = choose|k: int|
                0 <= k < ranges.len() && selection::in_range(#[trigger] ranges[k], index);
            if k < shorter.len() {
                assert(selection::in_range(shorter[k], index));
            } else if before.len() > 0 && index < before.last().end {
                covered_below(shorter, index, range.start as int);
            } else {
                assert(selection::in_range(after[after.len() - 1], index));
            }
            if selection::in_ranges(before, index) {
                let m = choose|m: int|
                    0 <= m < before.len() && selection::in_range(#[trigger] before[m], index);
                assert(selection::in_range(after[m], index));
            }
        }
        if selection::in_ranges(after, index) {
            let m = choose|m: int|
                0 <= m < after.len() && selection::in_range(#[trigger] after[m], index);
            if m < before.len() {
                assert(selection::in_range(before[m], index));
                let k = choose|k: int|
                    0 <= k < shorter.len() && selection::in_range(#[trigger] shorter[k], index);
                assert(selection::in_range(ranges[k], index));
            } else {
                assert(selection::in_range(ranges[ranges.len() - 1], index));
            }
        }
    }
}

/// Behind where a later range starts, everything up to the end of the clipped ranges is taken.
proof fn covered_below(ranges: Seq<Range<u64>>, index: int, later_start: int)
    requires
        forall|k: int, l: int|
            0 <= k < l < ranges.len() ==> (#[trigger] ranges[k]).start <= (
            #[trigger] ranges[l]).start && ranges[k].end <= ranges[l].end,
        forall|k: int| 0 <= k < ranges.len() ==> (#[trigger] ranges[k]).start <= later_start,
        clipped(ranges).len() > 0,
        later_start <= index < clipped(ranges).last().end,
    ensures
        selection::in_ranges(clipped(ranges), index),
    decreases ranges.len(),
{
    let after = clipped(ranges);
    let shorter = ranges.drop_last();
    let before = clipped(shorter);
    let range = ranges[ranges.len() - 1];
    assert(range.start <= later_start);
    let floor = if before.len() == 0 { 0 } else { before.last().end };
    let start = if range.start < floor { floor } else { range.start };
    if start < range.end {
        if index >= start {
            assert(selection::in_range(after[after.len() - 1], index));
        } else {
            covered_below(shorter, index, later_start);
            let m = choose|m: int|
                0 <= m < before.len() && selection::in_range(#[trigger] before[m], index);
            assert(selection::in_range(after[m], index));
        }
    } else {
        covered_below(shorter, index, later_start);
    }
}

/// A change is made exactly if a name or a text of the file becomes another: the title alone, the
/// frame type alone or the strings alone are enough.
pub proof fn changes_are_made_for_cause(
    editor: Editor,
    change: Option<MetadataChange>,
    frame_type: Seq<char>,
    title: Seq<char>,
    strings: Seq<Seq<char>>,
)
    requires
        editor.becomes(change, frame_type, title, strings),
    ensures
        frame_type != editor.schema.frame_type@ ==> change is Some,
        title != editor.title@ ==> change is Some,
        strings != text::views(editor.string_table@) ==> change is Some,
        change matches Some(made) ==> made.frame_type@ == frame_type && made.title@ == title
            && text::views(made.string_table@) == strings,
        change is Some ==> frame_type != editor.schema.frame_type@ || title != editor.title@
            || strings != text::views(editor.string_table@),
{
}

} // verus!

//! Splitting a file into parts and joining files to one: what the parts are, which files can be
//! joined, and what the joined file is.

use crate::error::{Error, Failure};
use crate::key;
use crate::key::{Key, KeyType};
use crate::number;
use crate::options;
use crate::options::{
    Codec, CodecSelection, Encoding, EncodingSelection, FormatVersion, OperationOptions,
    PageOptions,
};
use crate::schema;
use crate::schema::{Schema, SchemaModel};
use crate::selection;
use crate::text;
use std::ops::Range;
use vstd::prelude::*;
use vstd::string::*;

verus! {

/// How many bytes of frames are copied at once.
pub const COPY_BUFFER_BYTES: u64 = 4_194_304;

/// Room for strings that every v1 file is given at least.
pub const MIN_STRING_TABLE_LENGTH: usize = 1_834;

/// Why keys cannot split a file, if they cannot.
pub open spec fn split_refusal(keys: Seq<Key>) -> Option<Failure> {
    if keys.len() == 0 {
        Some(Failure::EmptySplitKeys)
    } else if exists|k: int| 0 <= k < keys.len() - 1 && (#[trigger] keys[k + 1]).precedes(keys[k]) {
        Some(Failure::UnsortedSplitKeys)
    } else {
        None
    }
}

/// Holds split keys to their order.
pub fn check_split_keys(keys: &[Key]) -> (result: Result<(), Error>)
    requires
        forall|k: int| 0 <= k < keys@.len() ==> (#[trigger] keys@[k]).valid(),
        forall|k: int, l: int|
            0 <= k < l < keys@.len() ==> (#[trigger] keys@[k]).kind() == (
            #[trigger] keys@[l]).kind(),
    ensures
        match result {
            Ok(_) => split_refusal(keys@) is None,
            Err(error) => split_refusal(keys@) == Some(error@),
        },
{
    if keys.len() == 0 {
        return Err(Error::EmptySplitKeys);
    }
    let mut i: usize = 1;
    while i < keys.len()
        invariant
            1 <= i,
            forall|k: int| 0 <= k < keys@.len() ==> (#[trigger] keys@[k]).valid(),
            forall|k: int, l: int|
                0 <= k < l < keys@.len() ==> (#[trigger] keys@[k]).kind() == (
                #[trigger] keys@[l]).kind(),
            keys@.len() > 0,
            forall|k: int|
                0 <= k < i - 1 && k < keys@.len() - 1 ==> !(#[trigger] keys@[k + 1]).precedes(
                    keys@[k],
                ),
        decreases keys@.len() - i,
    {
        assert(keys@[i - 1].kind() == keys@[i as int].kind());
        if keys[i].is_before(&keys[i - 1]) {
            assert(keys@[(i - 1) + 1].precedes(keys@[i - 1]));
            return Err(Error::UnsortedSplitKeys);
        }
        i = i + 1;
    }
    Ok(())
}

/// Where the parts of a file start and end: at its first frame, at the first frame of each key, but
/// never before an earlier one, and behind its last frame.
pub open spec fn boundaries(lower_bounds: Seq<u64>) -> Seq<u64>
    decreases lower_bounds.len(),
{
    if lower_bounds.len() == 0 {
        seq![0u64]
    } else {
        let before = boundaries(lower_bounds.drop_last());
        let bound = lower_bounds.last();
        before.push(
            if bound < before.last() {
                before.last()
            } else {
                bound
            },
        )
    }
}

/// The ranges between neighbouring boundaries, without empty ones unless they are wanted.
pub open spec fn parts_between(points: Seq<u64>, keep_empty: bool) -> Seq<Range<u64>>
    decreases points.len(),
{
    if points.len() < 2 {
        Seq::empty()
    } else {
        let before = parts_between(points.drop_last(), keep_empty);
        let start = points[points.len() - 2];
        let end = points.last();
        if start < end || keep_empty {
            before.push(Range { start, end })
        } else {
            before
        }
    }
}

/// The parts that a file is split into, given how many frames lie in front of each key.
pub open spec fn split_parts_of(lower_bounds: Seq<u64>, frame_count: u64, keep_empty: bool) -> Seq<
    Range<u64>,
> {
    parts_between(boundaries(lower_bounds).push(frame_count), keep_empty)
}

/// The parts that a file is split into, given how many frames lie in front of each key.
pub fn split_parts(lower_bounds: &[u64], frame_count: u64, keep_empty: bool) -> (result: Vec<
    Range<u64>,
>)
    ensures
        result@ == split_parts_of(lower_bounds@, frame_count, keep_empty),
{
    let ghost points = boundaries(lower_bounds@);
    let mut parts: Vec<Range<u64>> = Vec::new();
    let mut lower: u64 = 0;
    let mut i: usize = 0;
    assert(lower_bounds@.take(0) == Seq::<u64>::empty());
    assert(parts_between(seq![0u64], keep_empty) == Seq::<Range<u64>>::empty());
    while i < lower_bounds.len()
        invariant
            i <= lower_bounds@.len(),
            boundaries(lower_bounds@.take(i as int)).len() == i + 1,
            lower == boundaries(lower_bounds@.take(i as int)).last(),
            parts@ == parts_between(boundaries(lower_bounds@.take(i as int)), keep_empty),
        decreases lower_bounds@.len() - i,
    {
        let ghost before = boundaries(lower_bounds@.take(i as int));
        let ghost after = boundaries(lower_bounds@.take(i as int + 1));
        assert(lower_bounds@.take(i as int + 1).drop_last() == lower_bounds@.take(i as int));
        let bound: u64 = if lower_bounds[i] < lower { lower } else { lower_bounds[i] };
        assert(after == before.push(bound));
        assert(after.drop_last() == before);
        if lower < bound || keep_empty {
            parts.push(lower..bound);
        }
        lower = bound;
        i = i + 1;
    }
    assert(lower_bounds@.take(i as int) == lower_bounds@);
    let ghost all = points.push(frame_count);
    assert(all.drop_last() == points);
    if lower < frame_count || keep_empty {
        parts.push(lower..frame_count);
    }
    parts
}

/// The file name of a part.
pub open spec fn part_name_text(stem: Seq<char>, index: int) -> Seq<char> {
    stem + ".part"@ + number::decimal(index as nat) + ".fwob"@
}

/// The file name of a part.
pub fn part_name(stem: &str, index: usize) -> (result: String)
    ensures
        result@ == part_name_text(stem@, index as int),
{
    let mut result: String = stem.to_owned();
    result.append(".part");
    number::push_decimal(&mut result, index as u128);
    result.append(".fwob");
    result
}

/// The frames between two indexes, in order.
pub open spec fn span(start: int, end: int) -> Seq<int> {
    if start < end {
        Seq::new((end - start) as nat, |i: int| start + i)
    } else {
        Seq::empty()
    }
}

/// Splitting loses no frame, doubles none and keeps their order: the parts one behind the other
/// are the whole file.
pub proof fn split_loses_nothing(lower_bounds: Seq<u64>, frame_count: u64, keep_empty: bool)
    requires
        forall|k: int| 0 <= k < lower_bounds.len() ==> #[trigger] lower_bounds[k] <= frame_count,
    ensures
        selection::indexes(split_parts_of(lower_bounds, frame_count, keep_empty)) == span(
            0,
            frame_count as int,
        ),
{
    boundaries_rise(lower_bounds, frame_count);
    let points = boundaries(lower_bounds).push(frame_count);
    assert forall|k: int, l: int| 0 <= k <= l < points.len() implies #[trigger] points[k]
        <= #[trigger] points[l] by {}
    parts_cover(points, keep_empty);
}

proof fn boundaries_rise(lower_bounds: Seq<u64>, frame_count: u64)
    requires
        forall|k: int| 0 <= k < lower_bounds.len() ==> #[trigger] lower_bounds[k] <= frame_count,
    ensures
        boundaries(lower_bounds).len() == lower_bounds.len() + 1,
        boundaries(lower_bounds)[0] == 0,
        forall|k: int, l: int|
            0 <= k <= l < boundaries(lower_bounds).len() ==> #[trigger] boundaries(lower_bounds)[k]
                <= #[trigger] boundaries(lower_bounds)[l],
        forall|k: int|
            0 <= k < boundaries(lower_bounds).len() ==> #[trigger] boundaries(lower_bounds)[k]
                <= frame_count,
    decreases lower_bounds.len(),
{
    if lower_bounds.len() > 0 {
        boundaries_rise(lower_bounds.drop_last(), frame_count);
    }
}

proof fn parts_cover(points: Seq<u64>, keep_empty: bool)
    requires
        points.len() > 0,
        forall|k: int, l: int|
            0 <= k <= l < points.len() ==> #[trigger] points[k] <= #[trigger] points[l],
    ensures
        selection::indexes(parts_between(points, keep_empty)) == span(
            points[0] as int,
            points.last() as int,
        ),
    decreases points.len(),
{
    if points.len() >= 2 {
        let shorter = points.drop_last();
        assert forall|k: int, l: int| 0 <= k <= l < shorter.len() implies #[trigger] shorter[k]
            <= #[trigger] shorter[l] by {
            assert(points[k] <= points[l]);
        }
        parts_cover(shorter, keep_empty);
        let start = points[points.len() - 2];
        let end = points.last();
        let before = parts_between(shorter, keep_empty);
        let first = points[0];
        assert(first <= start <= end);
        assert(span(first as int, start as int) + span(start as int, end as int) =~= span(
            first as int,
            end as int,
        ));
        if start < end || keep_empty {
            let after = before.push(Range { start, end });
            assert(after.drop_last() == before);
            assert(Seq::new((end - start) as nat, |i: int| start + i) =~= span(
                start as int,
                end as int,
            ));
        }
    }
}

/// The parts of a file whose frames are in order lie between the split keys: the boundary of a key
/// parts the frames below the key from the others.
pub proof fn split_parts_lie_between_keys(
    ranks: Seq<int>,
    keys: Seq<Key>,
    lower_bounds: Seq<u64>,
    key: int,
    index: int,
)
    requires
        keys.len() == lower_bounds.len(),
        split_refusal(keys) is None,
        forall|k: int|
            0 <= k < keys.len() ==> selection::is_lower_bound(
                ranks,
                (#[trigger] keys[k]).rank(),
                lower_bounds[k] as int,
            ),
        0 <= key < keys.len(),
        0 <= index < ranks.len(),
    ensures
        boundaries(lower_bounds)[key + 1] == lower_bounds[key],
        index < boundaries(lower_bounds)[key + 1] <==> ranks[index] < keys[key].rank(),
{
    assert forall|k: int| 0 <= k < keys.len() - 1 implies lower_bounds[k]
        <= #[trigger] lower_bounds[k + 1] by {
        assert(!keys[k + 1].precedes(keys[k]));
        assert(selection::is_lower_bound(ranks, keys[k].rank(), lower_bounds[k] as int));
        assert(selection::is_lower_bound(ranks, keys[k + 1].rank(), lower_bounds[k + 1] as int));
        if lower_bounds[k + 1] < lower_bounds[k] {
            let i = lower_bounds[k + 1] as int;
            assert(ranks[i] < keys[k].rank());
            assert(!(ranks[i] < keys[k + 1].rank()));
        }
    }
    rising_bounds_are_boundaries(lower_bounds, key);
    assert(selection::is_lower_bound(ranks, keys[key].rank(), lower_bounds[key] as int));
}

proof fn rising_bounds_are_boundaries(lower_bounds: Seq<u64>, key: int)
    requires
        forall|k: int|
            0 <= k < lower_bounds.len() - 1 ==> lower_bounds[k] <= #[trigger] lower_bounds[k + 1],
        0 <= key < lower_bounds.len(),
    ensures
        boundaries(lower_bounds).len() == lower_bounds.len() + 1,
        boundaries(lower_bounds)[key + 1] == lower_bounds[key],
    decreases lower_bounds.len(),
{
    let shorter = lower_bounds.drop_last();
    assert forall|k: int| 0 <= k < shorter.len() - 1 implies shorter[k] <= #[trigger] shorter[k
        + 1] by {
        assert(lower_bounds[k] <= lower_bounds[k + 1]);
    }
    if shorter.len() > 0 {
        let last = lower_bounds.len() - 2;
        assert(lower_bounds[last] <= lower_bounds[last + 1]);
        rising_bounds_are_boundaries(shorter, shorter.len() - 1);
        if key < shorter.len() {
            rising_bounds_are_boundaries(shorter, key);
        }
    } else {
        assert(boundaries(shorter) == seq![0u64]);
    }
}

/// What joining files needs to know of one of them.
pub struct SourceFacts {
    pub format: FormatVersion,
    pub schema: Schema,
    pub title: String,
    pub string_table: Vec<String>,
    pub frame_count: u64,
    pub first_key: Option<Key>,
    pub last_key: Option<Key>,
}

/// What joining files needs to know of one of them, with names and texts as characters.
pub struct SourceModel {
    pub format: FormatVersion,
    pub schema: SchemaModel,
    pub title: Seq<char>,
    pub strings: Seq<Seq<char>>,
    pub frame_count: u64,
    pub first_key: Option<Key>,
    pub last_key: Option<Key>,
}

impl View for SourceFacts {
    type V = SourceModel;

    open spec fn view(&self) -> SourceModel {
        SourceModel {
            format: self.format,
            schema: self.schema@,
            title: self.title@,
            strings: text::views(self.string_table@),
            frame_count: self.frame_count,
            first_key: self.first_key,
            last_key: self.last_key,
        }
    }
}

/// The models of a list of files.
pub open spec fn source_models(sources: Seq<SourceFacts>) -> Seq<SourceModel> {
    sources.map_values(|source: SourceFacts| source@)
}

/// Whether a key is one that files of a schema hold.
pub open spec fn key_of_schema(schema: SchemaModel, key: Key) -> bool {
    &&& key.valid()
    &&& schema.key_field_index < schema.fields.len()
    &&& key::key_type_of(schema.fields[schema.key_field_index as int]) == Some(key.kind())
}

impl SourceModel {
    /// Whether the first and the last key of the file are keys that its schema holds.
    pub open spec fn has_fitting_keys(self) -> bool {
        &&& self.first_key matches Some(key) ==> key_of_schema(self.schema, key)
        &&& self.last_key matches Some(key) ==> key_of_schema(self.schema, key)
    }
}

/// Whether the first and the last key of each file are keys that its schema holds.
pub open spec fn keys_fit(sources: Seq<SourceModel>) -> bool {
    forall|k: int| 0 <= k < sources.len() ==> (#[trigger] sources[k]).has_fitting_keys()
}

/// Whether a key is one that files of a schema hold.
fn fits_schema(schema: &Schema, key: &Key) -> (result: bool)
    ensures
        result == key_of_schema(schema@, *key),
{
    if schema.key_field_index >= schema.fields.len() {
        return false;
    }
    assert(schema@.fields[schema.key_field_index as int]
        == schema.fields@[schema.key_field_index as int]@);
    match KeyType::from_field(&schema.fields[schema.key_field_index]) {
        Ok(kind) => kind == key.key_type() && key.is_valid(),
        Err(_) => false,
    }
}

impl SourceFacts {
    /// Whether the first and the last key of the file are keys that its schema holds.
    pub fn keys_fit(&self) -> (result: bool)
        ensures
            result == self@.has_fitting_keys(),
    {
        let first: bool = match &self.first_key {
            Some(key) => fits_schema(&self.schema, key),
            None => true,
        };
        let last: bool = match &self.last_key {
            Some(key) => fits_schema(&self.schema, key),
            None => true,
        };
        first && last
    }
}

/// Two string tables as one: where both have a string, it is the same, and the longer table is the
/// result. `None` where they do not agree.
pub open spec fn merged_strings(left: Seq<Seq<char>>, right: Seq<Seq<char>>) -> Option<
    Seq<Seq<char>>,
> {
    if forall|i: int| 0 <= i < left.len() && i < right.len() ==> left[i] == right[i] {
        Some(
            if left.len() >= right.len() {
                left
            } else {
                right
            },
        )
    } else {
        None
    }
}

/// Adds to a string table what another one has beyond it.
pub fn merge_string_tables(destination: &mut Vec<String>, source: &[String]) -> (result: Result<
    (),
    Error,
>)
    ensures
        match result {
            Ok(_) => merged_strings(text::views(old(destination)@), text::views(source@)) == Some(
                text::views(final(destination)@),
            ),
            Err(error) => merged_strings(text::views(old(destination)@), text::views(source@))
                is None && error@ == Failure::IncompatibleStringTable && final(destination)@ == old(
                destination,
            )@,
        },
{
    let ghost before = destination@;
    let start: usize = destination.len();
    let mut i: usize = 0;
    while i < source.len()
        invariant
            i <= source@.len(),
            before == old(destination)@,
            start == before.len(),
            destination@.len() == if i <= start {
                start as int
            } else {
                i as int
            },
            destination@.take(start as int) == before,
            forall|j: int| start <= j < i ==> (#[trigger] destination@[j])@ == source@[j]@,
            forall|j: int| 0 <= j < i && j < start ==> (#[trigger] before[j])@ == source@[j]@,
        decreases source@.len() - i,
    {
        if i < destination.len() {
            if !text::same(destination[i].as_str(), source[i].as_str()) {
                proof {
                    assert(before[i as int] == destination@[i as int]);
                    assert(text::views(before)[i as int] != text::views(source@)[i as int]);
                    assert(destination@ == before);
                }
                return Err(Error::IncompatibleStringTable);
            }
            assert(before[i as int] == destination@[i as int]);
        } else {
            let ghost previous = destination@;
            destination.push(source[i].clone());
            assert(destination@.take(start as int) == previous.take(start as int));
        }
        i = i + 1;
    }
    proof {
        let left = text::views(before);
        let right = text::views(source@);
        assert forall|j: int| 0 <= j < left.len() && j < right.len() implies left[j] == right[j] by {
            assert(before[j]@ == source@[j]@);
        }
        if before.len() >= source@.len() {
            assert(destination@ == before);
        } else {
            assert forall|j: int| 0 <= j < source@.len() implies (#[trigger] destination@[j])@
                == source@[j]@ by {
                if j < before.len() {
                    assert(destination@.take(start as int)[j] == before[j]);
                }
            }
            assert(text::views(destination@) == right);
        }
    }
    Ok(())
}

/// What is known of the files to be joined so far.
#[verifier::ext_equal]
pub struct JoinedModel {
    pub schema: SchemaModel,
    pub richest: SchemaModel,
    pub title: Seq<char>,
    pub strings: Seq<Seq<char>>,
    pub frames: u64,
    pub last_key: Option<Key>,
    pub all_v1: bool,
    pub any_v1: bool,
    pub semantics_differ: bool,
}

/// What is known of the first file.
pub open spec fn joined_first(source: SourceModel) -> JoinedModel {
    JoinedModel {
        schema: source.schema,
        richest: source.schema,
        title: source.title,
        strings: source.strings,
        frames: source.frame_count,
        last_key: source.last_key,
        all_v1: source.format == FormatVersion::V1,
        any_v1: source.format == FormatVersion::V1,
        semantics_differ: false,
    }
}

/// What is known once one more file is taken in, or why it cannot be joined.
pub open spec fn joined_next(joined: JoinedModel, source: SourceModel) -> Result<
    JoinedModel,
    Failure,
> {
    let v1 = source.format == FormatVersion::V1;
    if !source.schema.compatible(joined.schema) {
        Err(Failure::IncompatibleSchema)
    } else if source.title != joined.title {
        Err(Failure::IncompatibleTitle)
    } else if merged_strings(joined.strings, source.strings) is None {
        Err(Failure::IncompatibleStringTable)
    } else if joined.last_key is Some && source.first_key is Some && source.first_key->0.precedes(
        joined.last_key->0,
    ) {
        Err(Failure::IncompatibleKeyOrder)
    } else if joined.frames + source.frame_count > u64::MAX {
        Err(Failure::InvalidSchema("concatenated frame count overflows u64"@))
    } else {
        Ok(
            JoinedModel {
                schema: joined.schema,
                richest: if source.schema.richness() > joined.richest.richness() {
                    source.schema
                } else {
                    joined.richest
                },
                title: joined.title,
                strings: merged_strings(joined.strings, source.strings)->0,
                frames: (joined.frames + source.frame_count) as u64,
                last_key: if source.last_key is Some {
                    source.last_key
                } else {
                    joined.last_key
                },
                all_v1: joined.all_v1 && v1,
                any_v1: joined.any_v1 || v1,
                semantics_differ: joined.semantics_differ || source.schema != joined.schema,
            },
        )
    }
}

/// What is known of files in their order, or why the first that cannot be joined cannot be.
pub open spec fn joined_of(sources: Seq<SourceModel>) -> Result<JoinedModel, Failure>
    decreases sources.len(),
{
    if sources.len() == 0 {
        Err(Failure::EmptySources)
    } else if sources.len() == 1 {
        Ok(joined_first(sources[0]))
    } else {
        match joined_of(sources.drop_last()) {
            Err(failure) => Err(failure),
            Ok(joined) => joined_next(joined, sources.last()),
        }
    }
}

/// Why files cannot be joined, if they cannot. Files that all say what their numbers stand for must
/// say the same; a v1 file cannot say it, so next to one differences do not count.
pub open spec fn concat_refusal(sources: Seq<SourceModel>) -> Option<Failure> {
    match joined_of(sources) {
        Err(failure) => Some(failure),
        Ok(joined) => if !joined.any_v1 && joined.semantics_differ {
            Some(Failure::IncompatibleSchema)
        } else {
            None
        },
    }
}

/// The format of the joined file: the one that was asked for, or v1 where all files are v1.
pub open spec fn joined_format(joined: JoinedModel, asked: Option<FormatVersion>) -> FormatVersion {
    match asked {
        Some(format) => format,
        None => if joined.all_v1 {
            FormatVersion::V1
        } else {
            FormatVersion::V2
        },
    }
}

/// The schema of the joined file: the one that says most about what numbers stand for; a v1 file
/// says nothing about that.
pub open spec fn joined_schema(joined: JoinedModel, format: FormatVersion) -> SchemaModel {
    match format {
        FormatVersion::V1 => joined.richest.plain(),
        FormatVersion::V2 => joined.richest,
    }
}

/// A file to be made by joining files.
#[derive(Debug)]
pub struct ConcatPlan {
    pub format: FormatVersion,
    /// Whether all files are v1, so that frames can be copied from v1 to v1.
    pub all_v1: bool,
    pub schema: Schema,
    pub title: String,
    pub string_table: Vec<String>,
    pub total_frames: u64,
}

impl ConcatPlan {
    /// The room for strings that the joined file is given if it is v1: what the v1 files among its
    /// sources have at most, and where not all of them are v1, no less than the strings need.
    pub open spec fn string_table_room(self, source_lengths: Seq<u32>) -> int {
        largest(
            source_lengths,
            if self.all_v1 {
                0
            } else {
                preserved_length_for(text::views(self.string_table@)) as u32
            },
        ) as int
    }

    /// The room for strings that the joined file is given if it is v1; `source_lengths` is the room
    /// that the v1 files among its sources have.
    pub fn preserved_length(&self, source_lengths: &[u32]) -> (result: u32)
        requires
            string_room(text::views(self.string_table@)) <= usize::MAX,
        ensures
            result == self.string_table_room(source_lengths@),
    {
        let least: u32 = if self.all_v1 {
            0
        } else {
            preserved_length(self.string_table.as_slice())
        };
        joined_preserved_length(source_lengths, least)
    }
}

/// The file that joining files makes, or why they cannot be joined.
pub fn plan_concat(sources: &[SourceFacts], output_format: Option<FormatVersion>) -> (result: Result<
    ConcatPlan,
    Error,
>)
    requires
        keys_fit(source_models(sources@)),
    ensures
        match result {
            Err(error) => concat_refusal(source_models(sources@)) == Some(error@),
            Ok(plan) => {
                let joined = joined_of(source_models(sources@))->Ok_0;
                &&& concat_refusal(source_models(sources@)) is None
                &&& plan.format == joined_format(joined, output_format)
                &&& plan.all_v1 == joined.all_v1
                &&& plan.schema@ == joined_schema(joined, plan.format)
                &&& plan.title@ == joined.title
                &&& text::views(plan.string_table@) == joined.strings
                &&& plan.total_frames == joined.frames
            },
        },
{
    let ghost models = source_models(sources@);
    if sources.len() == 0 {
        return Err(Error::EmptySources);
    }
    let first: &SourceFacts = &sources[0];
    let mut richest: usize = 0;
    let mut richest_count: usize = first.schema.semantic_richness();
    let mut string_table: Vec<String> = text::texts_from(first.string_table.as_slice(), 0);
    let mut total_frames: u64 = first.frame_count;
    let mut previous_last: Option<Key> = first.last_key;
    let mut all_v1: bool = first.format == FormatVersion::V1;
    let mut any_v1: bool = all_v1;
    let mut semantic_differs: bool = false;
    let mut i: usize = 1;
    proof {
        assert(models.take(1).len() == 1);
        assert(models.take(1)[0] == first@);
        assert(string_table@ == first.string_table@);
        assert(models[0] == first@);
    }
    while i < sources.len()
        invariant
            1 <= i <= sources@.len(),
            models == source_models(sources@),
            keys_fit(models),
            *first == sources@[0],
            richest < i,
            richest_count == sources@[richest as int].schema@.richness(),
            previous_last matches Some(key) ==> key_of_schema(first.schema@, key),
            joined_of(models.take(i as int)) == Ok::<JoinedModel, Failure>(
                JoinedModel {
                    schema: first.schema@,
                    richest: sources@[richest as int].schema@,
                    title: first.title@,
                    strings: text::views(string_table@),
                    frames: total_frames,
                    last_key: previous_last,
                    all_v1,
                    any_v1,
                    semantics_differ: semantic_differs,
                },
            ),
        decreases sources@.len() - i,
    {
        let source: &SourceFacts = &sources[i];
        let ghost taken = models.take(i as int + 1);
        let ghost joined = joined_of(models.take(i as int))->Ok_0;
        assert(taken.drop_last() == models.take(i as int));
        assert(taken.last() == source@);
        assert(models[i as int] == source@);
        let v1: bool = source.format == FormatVersion::V1;
        if !source.schema.is_compatible(&first.schema) {
            proof {
                join_failure_stays(models, i as int + 1);
            }
            return Err(Error::IncompatibleSchema);
        }
        let same: bool = source.schema.is_same(&first.schema);
        if !text::same(source.title.as_str(), first.title.as_str()) {
            proof {
                join_failure_stays(models, i as int + 1);
            }
            return Err(Error::IncompatibleTitle);
        }
        match merge_string_tables(&mut string_table, source.string_table.as_slice()) {
            Ok(_) => {},
            Err(error) => {
                proof {
                    join_failure_stays(models, i as int + 1);
                }
                return Err(error);
            },
        }
        if let (Some(previous), Some(next)) = (previous_last, source.first_key) {
            proof {
                same_kind_of_keys(source.schema@, first.schema@, next);
            }
            if next.is_before(&previous) {
                proof {
                    join_failure_stays(models, i as int + 1);
                }
                return Err(Error::IncompatibleKeyOrder);
            }
        }
        let frames: u64 = match total_frames.checked_add(source.frame_count) {
            Some(frames) => frames,
            None => {
                proof {
                    join_failure_stays(models, i as int + 1);
                }
                return Err(
                    Error::InvalidSchema("concatenated frame count overflows u64".to_owned()),
                );
            },
        };
        let count: usize = source.schema.semantic_richness();
        if count > richest_count {
            richest = i;
            richest_count = count;
        }
        total_frames = frames;
        if let Some(last) = source.last_key {
            previous_last = Some(last);
            proof {
                same_kind_of_keys(source.schema@, first.schema@, last);
            }
        }
        all_v1 = all_v1 && v1;
        any_v1 = any_v1 || v1;
        semantic_differs = semantic_differs || !same;
        i = i + 1;
        assert(joined_of(taken) == joined_next(joined, source@));
    }
    assert(models.take(i as int) == models);
    if !any_v1 && semantic_differs {
        return Err(Error::IncompatibleSchema);
    }
    let format: FormatVersion = match output_format {
        Some(format) => format,
        None => if all_v1 {
            FormatVersion::V1
        } else {
            FormatVersion::V2
        },
    };
    let schema: Schema = match format {
        FormatVersion::V1 => sources[richest].schema.without_semantics(),
        FormatVersion::V2 => sources[richest].schema.copy(),
    };
    Ok(
        ConcatPlan {
            format,
            all_v1,
            schema,
            title: first.title.clone(),
            string_table,
            total_frames,
        },
    )
}

proof fn same_kind_of_keys(schema: SchemaModel, other: SchemaModel, key: Key)
    requires
        schema.compatible(other),
        key_of_schema(schema, key),
    ensures
        key_of_schema(other, key),
{
    let index = schema.key_field_index as int;
    assert(schema.fields[index].same_layout(other.fields[index]));
}

proof fn join_failure_stays(sources: Seq<SourceModel>, count: int)
    requires
        0 < count <= sources.len(),
        joined_of(sources.take(count)) is Err,
    ensures
        joined_of(sources) == joined_of(sources.take(count)),
    decreases sources.len() - count,
{
    if count < sources.len() {
        assert(sources.take(count + 1).drop_last() == sources.take(count));
        join_failure_stays(sources, count + 1);
    } else {
        assert(sources.take(count) == sources);
    }
}

/// How many frames files hold together.
pub open spec fn frames_together(sources: Seq<SourceModel>) -> nat
    decreases sources.len(),
{
    if sources.len() == 0 {
        0
    } else {
        frames_together(sources.drop_last()) + sources.last().frame_count as nat
    }
}

/// A joined file holds the frames of all files, its schema is one that each of them is compatible
/// with, its string table starts with the table of each of them, and no file starts with a key in
/// front of the last key before it.
pub proof fn joined_file_holds_all(sources: Seq<SourceModel>, index: int)
    requires
        joined_of(sources) is Ok,
        0 <= index < sources.len(),
    ensures
        joined_of(sources)->Ok_0.frames == frames_together(sources),
        sources[index].schema.compatible(joined_of(sources)->Ok_0.schema),
        joined_of(sources)->Ok_0.schema == sources[0].schema,
        sources[index].title == joined_of(sources)->Ok_0.title,
        sources[index].strings.is_prefix_of(joined_of(sources)->Ok_0.strings),
    decreases sources.len(),
{
    let joined = joined_of(sources)->Ok_0;
    if sources.len() == 1 {
        assert(sources.drop_last() == Seq::<SourceModel>::empty());
        reveal_with_fuel(frames_together, 2);
        assert(sources[0].strings == joined.strings);
    } else {
        let shorter = sources.drop_last();
        let before = joined_of(shorter)->Ok_0;
        joined_file_holds_all(shorter, if index < shorter.len() { index } else { 0 });
        let strings = joined.strings;
        assert(before.strings.is_prefix_of(strings));
        if index < shorter.len() {
            assert(sources[index] == shorter[index]);
            assert(sources[index].strings.is_prefix_of(strings));
        } else {
            assert(sources[index].strings.is_prefix_of(strings));
        }
    }
}

/// The last key of the files so far that have one.
pub open spec fn last_key_of(sources: Seq<SourceModel>) -> Option<Key>
    decreases sources.len(),
{
    if sources.len() == 0 {
        None
    } else if sources.last().last_key is Some {
        sources.last().last_key
    } else {
        last_key_of(sources.drop_last())
    }
}

/// The files of a joined file come in the order of their keys.
pub proof fn joined_files_are_in_order(sources: Seq<SourceModel>, index: int)
    requires
        joined_of(sources) is Ok,
        0 < index < sources.len(),
        sources[index].first_key is Some,
        last_key_of(sources.take(index)) is Some,
    ensures
        !sources[index].first_key->0.precedes(last_key_of(sources.take(index))->0),
    decreases sources.len(),
{
    let shorter = sources.drop_last();
    if index < shorter.len() {
        assert(shorter.take(index) == sources.take(index));
        joined_files_are_in_order(shorter, index);
    } else {
        assert(sources.take(index) == shorter);
        joined_last_key(shorter);
    }
}

proof fn joined_last_key(sources: Seq<SourceModel>)
    requires
        joined_of(sources) is Ok,
    ensures
        joined_of(sources)->Ok_0.last_key == last_key_of(sources),
    decreases sources.len(),
{
    if sources.len() > 1 {
        joined_last_key(sources.drop_last());
    } else {
        assert(sources.drop_last() == Seq::<SourceModel>::empty());
        reveal_with_fuel(last_key_of, 2);
    }
}

/// Files that share schema, title and strings and whose keys come in order can be joined, and make a
/// file with as many frames as they have together.
pub proof fn matching_files_join(sources: Seq<SourceModel>)
    requires
        sources.len() > 0,
        forall|k: int|
            0 <= k < sources.len() ==> {
                &&& (#[trigger] sources[k]).schema == sources[0].schema
                &&& sources[k].title == sources[0].title
                &&& sources[k].strings == sources[0].strings
            },
        frames_together(sources) <= u64::MAX,
        forall|k: int|
            #![trigger sources[k]]
            0 < k < sources.len() && sources[k].first_key is Some && last_key_of(sources.take(k))
                is Some ==> !sources[k].first_key->0.precedes(last_key_of(sources.take(k))->0),
    ensures
        concat_refusal(sources) is None,
        joined_of(sources)->Ok_0.frames == frames_together(sources),
        joined_of(sources)->Ok_0.richest == sources[0].schema,
        joined_of(sources)->Ok_0.strings == sources[0].strings,
    decreases sources.len(),
{
    if sources.len() == 1 {
        assert(sources.drop_last() == Seq::<SourceModel>::empty());
        reveal_with_fuel(frames_together, 2);
    } else {
        let shorter = sources.drop_last();
        assert forall|k: int|
            #![trigger shorter[k]]
            0 < k < shorter.len() && shorter[k].first_key is Some && last_key_of(shorter.take(k))
                is Some implies !shorter[k].first_key->0.precedes(
            last_key_of(shorter.take(k))->0,
        ) by {
            assert(shorter.take(k) == sources.take(k));
            assert(sources[k] == shorter[k]);
        }
        assert forall|k: int| 0 <= k < shorter.len() implies (#[trigger] shorter[k]).schema
            == shorter[0].schema && shorter[k].title == shorter[0].title && shorter[k].strings
            == shorter[0].strings by {
            assert(sources[k] == shorter[k]);
        }
        matching_files_join(shorter);
        joined_last_key(shorter);
        let last = sources.len() - 1;
        assert(sources.take(last) == shorter);
        assert(sources[last].schema == sources[0].schema);
        joined_keeps_agreement(shorter);
    }
}

proof fn joined_keeps_agreement(sources: Seq<SourceModel>)
    requires
        joined_of(sources) is Ok,
        forall|k: int|
            0 <= k < sources.len() ==> (#[trigger] sources[k]).schema == sources[0].schema,
    ensures
        joined_of(sources)->Ok_0.schema == sources[0].schema,
        joined_of(sources)->Ok_0.title == sources[0].title,
        !joined_of(sources)->Ok_0.semantics_differ,
    decreases sources.len(),
{
    if sources.len() > 1 {
        let shorter = sources.drop_last();
        assert forall|k: int| 0 <= k < shorter.len() implies (#[trigger] shorter[k]).schema
            == shorter[0].schema by {
            assert(sources[k] == shorter[k]);
        }
        joined_keeps_agreement(shorter);
        assert(sources[sources.len() - 1].schema == sources[0].schema);
    }
}

/// Whether keys come in their order.
pub open spec fn keys_rise(keys: Seq<Key>) -> bool {
    forall|i: int, j: int|
        0 <= i <= j < keys.len() ==> (#[trigger] keys[i]).rank() <= (#[trigger] keys[j]).rank()
}

/// Whether ranges of frames lie one behind the other in a file of so many frames.
pub open spec fn parts_rise(parts: Seq<Range<u64>>, frame_count: int) -> bool {
    &&& forall|k: int|
        0 <= k < parts.len() ==> (#[trigger] parts[k]).start <= parts[k].end <= frame_count
    &&& forall|k: int, l: int|
        0 <= k < l < parts.len() ==> (#[trigger] parts[k]).end <= (#[trigger] parts[l]).start
}

/// What a part of a file is to joining, where the frames of the file have these keys: a file like
/// the whole, with the frames of the part.
pub open spec fn part_source(file: SourceModel, keys: Seq<Key>, part: Range<u64>) -> SourceModel {
    SourceModel {
        frame_count: (part.end - part.start) as u64,
        first_key: if part.start < part.end {
            Some(keys[part.start as int])
        } else {
            None
        },
        last_key: if part.start < part.end {
            Some(keys[part.end - 1])
        } else {
            None
        },
        ..file
    }
}

/// What the parts of a file are to joining.
pub open spec fn part_sources(file: SourceModel, keys: Seq<Key>, parts: Seq<Range<u64>>) -> Seq<
    SourceModel,
> {
    parts.map_values(|part: Range<u64>| part_source(file, keys, part))
}

/// Whether a file is as files are: its frames have keys that its schema holds, in their order, and
/// where it is v1 it says nothing about what numbers stand for.
pub open spec fn file_is_sound(file: SourceModel, keys: Seq<Key>) -> bool {
    &&& keys.len() == file.frame_count
    &&& keys_rise(keys)
    &&& forall|i: int| 0 <= i < keys.len() ==> key_of_schema(file.schema, #[trigger] keys[i])
    &&& file.format == FormatVersion::V1 ==> file.schema == file.schema.plain()
}

/// Joining the parts of a split file gives the file back: the parts can be joined, and the joined
/// file has all frames in their order, and the title, the strings, the schema and the format of the
/// file. A file without frames has no part to join unless empty parts are kept.
pub proof fn joining_the_parts_gives_the_file_back(
    file: SourceModel,
    keys: Seq<Key>,
    lower_bounds: Seq<u64>,
    keep_empty: bool,
)
    requires
        file_is_sound(file, keys),
        forall|k: int|
            0 <= k < lower_bounds.len() ==> #[trigger] lower_bounds[k] <= file.frame_count,
        file.frame_count > 0 || keep_empty,
    ensures
        ({
            let parts = split_parts_of(lower_bounds, file.frame_count, keep_empty);
            let sources = part_sources(file, keys, parts);
            let joined = joined_of(sources)->Ok_0;
            &&& keys_fit(sources)
            &&& concat_refusal(sources) is None
            &&& joined.frames == file.frame_count
            &&& selection::indexes(parts) == span(0, file.frame_count as int)
            &&& joined.title == file.title
            &&& joined.strings == file.strings
            &&& joined_format(joined, None) == file.format
            &&& joined_schema(joined, file.format) == file.schema
        }),
{
    let parts = split_parts_of(lower_bounds, file.frame_count, keep_empty);
    let sources = part_sources(file, keys, parts);
    split_loses_nothing(lower_bounds, file.frame_count, keep_empty);
    split_parts_rise(lower_bounds, file.frame_count, keep_empty);
    parts_hold_their_frames(file, keys, parts);
    assert(parts.len() > 0) by {
        if file.frame_count > 0 {
            assert(span(0, file.frame_count as int).len() > 0);
        }
    }
    assert forall|k: int| 0 <= k < sources.len() implies #[trigger] sources[k] == part_source(
        file,
        keys,
        parts[k],
    ) by {}
    assert forall|k: int|
        #![trigger sources[k]]
        0 < k < sources.len() && sources[k].first_key is Some && last_key_of(sources.take(k))
            is Some implies !sources[k].first_key->0.precedes(
        last_key_of(sources.take(k))->0,
    ) by {
        let part = last_part_with_keys(file, keys, parts, k);
        assert(keys[parts[part].end - 1].rank() <= keys[parts[k].start as int].rank());
    }
    matching_files_join(sources);
    joined_keeps_agreement(sources);
    joined_keeps_format(sources, file.format);
}

/// Joining the parts of a split file in the opposite order is refused where two parts hold
/// different keys.
pub proof fn joining_reversed_parts_is_refused(
    file: SourceModel,
    keys: Seq<Key>,
    lower_bounds: Seq<u64>,
    keep_empty: bool,
    one: int,
    left: int,
    other: int,
    right: int,
)
    requires
        file_is_sound(file, keys),
        forall|k: int|
            0 <= k < lower_bounds.len() ==> #[trigger] lower_bounds[k] <= file.frame_count,
        ({
            let parts = split_parts_of(lower_bounds, file.frame_count, keep_empty);
            &&& 0 <= one < parts.len() && parts[one].start <= left < parts[one].end
            &&& 0 <= other < parts.len() && parts[other].start <= right < parts[other].end
        }),
        one != other,
        keys[left].rank() != keys[right].rank(),
    ensures
        ({
            let parts = split_parts_of(lower_bounds, file.frame_count, keep_empty);
            let sources = part_sources(file, keys, parts);
            &&& keys_fit(sources.reverse())
            &&& concat_refusal(sources.reverse()) == Some(Failure::IncompatibleKeyOrder)
        }),
{
    let parts = split_parts_of(lower_bounds, file.frame_count, keep_empty);
    let sources = part_sources(file, keys, parts);
    let reversed = sources.reverse();
    split_parts_rise(lower_bounds, file.frame_count, keep_empty);
    reversed_parts_hold_one_key(file, keys, parts, parts.len() as int);
    assert(reversed.take(parts.len() as int) == reversed);
    assert forall|k: int| 0 <= k < reversed.len() implies #[trigger] reversed[k] == part_source(
        file,
        keys,
        parts[parts.len() - 1 - k],
    ) by {}
}

proof fn split_parts_rise(lower_bounds: Seq<u64>, frame_count: u64, keep_empty: bool)
    requires
        forall|k: int| 0 <= k < lower_bounds.len() ==> #[trigger] lower_bounds[k] <= frame_count,
    ensures
        parts_rise(split_parts_of(lower_bounds, frame_count, keep_empty), frame_count as int),
        keep_empty ==> split_parts_of(lower_bounds, frame_count, keep_empty).len() > 0,
{
    boundaries_rise(lower_bounds, frame_count);
    let points = boundaries(lower_bounds).push(frame_count);
    assert forall|k: int, l: int| 0 <= k <= l < points.len() implies #[trigger] points[k]
        <= #[trigger] points[l] by {}
    parts_between_rise(points, keep_empty);
}

proof fn parts_between_rise(points: Seq<u64>, keep_empty: bool)
    requires
        points.len() > 0,
        forall|k: int, l: int|
            0 <= k <= l < points.len() ==> #[trigger] points[k] <= #[trigger] points[l],
    ensures
        parts_rise(parts_between(points, keep_empty), points.last() as int),
    decreases points.len(),
{
    if points.len() >= 2 {
        let shorter = points.drop_last();
        assert forall|k: int, l: int| 0 <= k <= l < shorter.len() implies #[trigger] shorter[k]
            <= #[trigger] shorter[l] by {
            assert(points[k] <= points[l]);
        }
        parts_between_rise(shorter, keep_empty);
        assert(points[points.len() - 2] <= points[points.len() - 1]);
    }
}

proof fn parts_hold_their_frames(file: SourceModel, keys: Seq<Key>, parts: Seq<Range<u64>>)
    requires
        parts_rise(parts, keys.len() as int),
    ensures
        frames_together(part_sources(file, keys, parts)) == selection::indexes(parts).len(),
    decreases parts.len(),
{
    if parts.len() > 0 {
        let shorter = parts.drop_last();
        let last = parts.len() - 1;
        assert(parts_rise(shorter, keys.len() as int)) by {
            assert forall|k: int, l: int| 0 <= k < l < shorter.len() implies (
            #[trigger] shorter[k]).end <= (#[trigger] shorter[l]).start by {
                assert(parts[k].end <= parts[l].start);
            }
            assert forall|k: int| 0 <= k < shorter.len() implies (#[trigger] shorter[k]).start
                <= shorter[k].end <= keys.len() by {
                assert(parts[k].start <= parts[k].end);
            }
        }
        parts_hold_their_frames(file, keys, shorter);
        assert(part_sources(file, keys, parts).drop_last() == part_sources(file, keys, shorter));
        assert(parts[last].start <= parts[last].end);
    }
}

/// The last part with frames among the first `count`.
proof fn last_part_with_keys(
    file: SourceModel,
    keys: Seq<Key>,
    parts: Seq<Range<u64>>,
    count: int,
) -> (part: int)
    requires
        0 <= count <= parts.len(),
        last_key_of(part_sources(file, keys, parts).take(count)) is Some,
    ensures
        0 <= part < count,
        parts[part].start < parts[part].end,
        last_key_of(part_sources(file, keys, parts).take(count)) == Some(
            keys[parts[part].end - 1],
        ),
    decreases count,
{
    let sources = part_sources(file, keys, parts);
    let first = sources.take(count);
    if count > 0 && !(first.last().last_key is Some) {
        assert(first.drop_last() == sources.take(count - 1));
        last_part_with_keys(file, keys, parts, count - 1)
    } else {
        count - 1
    }
}

proof fn joined_keeps_format(sources: Seq<SourceModel>, format: FormatVersion)
    requires
        joined_of(sources) is Ok,
        forall|k: int| 0 <= k < sources.len() ==> (#[trigger] sources[k]).format == format,
    ensures
        joined_of(sources)->Ok_0.all_v1 == (format == FormatVersion::V1),
    decreases sources.len(),
{
    assert(sources[sources.len() - 1].format == format);
    if sources.len() > 1 {
        let shorter = sources.drop_last();
        assert forall|k: int| 0 <= k < shorter.len() implies (#[trigger] shorter[k]).format
            == format by {
            assert(sources[k] == shorter[k]);
        }
        joined_keeps_format(shorter, format);
    }
}

/// Parts that can be joined in the opposite order hold the same key, and nothing but the order of
/// keys can keep them from being joined.
proof fn reversed_parts_hold_one_key(
    file: SourceModel,
    keys: Seq<Key>,
    parts: Seq<Range<u64>>,
    count: int,
)
    requires
        parts_rise(parts, keys.len() as int),
        keys_rise(keys),
        keys.len() <= u64::MAX,
        1 <= count <= parts.len(),
    ensures
        match joined_of(part_sources(file, keys, parts).reverse().take(count)) {
            Err(failure) => failure == Failure::IncompatibleKeyOrder,
            Ok(joined) => {
                let first = parts.len() - count;
                &&& joined.schema == file.schema
                &&& joined.title == file.title
                &&& joined.strings == file.strings
                &&& joined.frames <= keys.len() - parts[first].start
                &&& forall|k: int|
                    first <= k < parts.len() && (#[trigger] parts[k]).start < parts[k].end
                        ==> joined.last_key is Some
                &&& forall|k: int, i: int|
                    first <= k < parts.len() && (#[trigger] parts[k]).start <= i < parts[k].end
                        ==> (#[trigger] keys[i]).rank() <= joined.last_key->0.rank()
                &&& forall|k: int, i: int, l: int, j: int|
                    first <= k < l < parts.len() && (#[trigger] parts[k]).start <= i < parts[k].end
                        && (#[trigger] parts[l]).start <= j < parts[l].end ==> (
                    #[trigger] keys[i]).rank() == (#[trigger] keys[j]).rank()
            },
        },
    decreases count,
{
    let reversed = part_sources(file, keys, parts).reverse();
    let taken = reversed.take(count);
    let first = parts.len() - count;
    let part = parts[first];
    let source = part_source(file, keys, part);
    assert(taken.last() == source);
    assert(part.start <= part.end <= keys.len());
    if count == 1 {
        assert(taken[0] == source);
        assert(joined_of(taken) == Ok::<JoinedModel, Failure>(joined_first(source)));
    } else {
        reversed_parts_hold_one_key(file, keys, parts, count - 1);
        assert(taken.drop_last() == reversed.take(count - 1));
        let before = joined_of(reversed.take(count - 1));
        if before is Ok {
            let joined = before->Ok_0;
            assert(part.end <= parts[first + 1].start);
            assert(file.schema.compatible(file.schema));
            assert(merged_strings(file.strings, file.strings) == Some(file.strings));
            if joined_of(taken) is Ok {
                let after = joined_of(taken)->Ok_0;
                assert forall|i: int, l: int, j: int|
                    part.start <= i < part.end && first < l < parts.len() && (
                    #[trigger] parts[l]).start <= j < parts[l].end implies (
                #[trigger] keys[i]).rank() == (#[trigger] keys[j]).rank() by {
                    assert(part.end <= parts[l].start);
                    assert(keys[part.start as int].rank() <= keys[i].rank() <= keys[j].rank());
                    assert(keys[j].rank() <= joined.last_key->0.rank());
                }
                assert forall|k: int, i: int|
                    first <= k < parts.len() && (#[trigger] parts[k]).start <= i
                        < parts[k].end implies (#[trigger] keys[i]).rank()
                    <= after.last_key->0.rank() by {
                    if part.start < part.end {
                        assert(keys[part.end - 1].rank() == after.last_key->0.rank());
                    }
                }
            }
        }
    }
}

/// Whether joining files ignores that v1 files cannot say what numbers stand for.
pub open spec fn relaxes_semantics(sources: Seq<SourceModel>) -> bool {
    &&& exists|k: int| 0 <= k < sources.len() && (#[trigger] sources[k]).format == FormatVersion::V1
    &&& exists|k: int|
        0 <= k < sources.len() && (#[trigger] sources[k]).format == FormatVersion::V2
            && sources[k].schema.richness() > 0
}

/// Whether joining files ignores that v1 files cannot say what numbers stand for.
pub fn concat_uses_relaxed_semantics(sources: &[SourceFacts]) -> (result: bool)
    ensures
        result == relaxes_semantics(source_models(sources@)),
{
    let ghost models = source_models(sources@);
    let mut has_v1: bool = false;
    let mut has_semantic_v2: bool = false;
    let mut i: usize = 0;
    while i < sources.len()
        invariant
            i <= sources@.len(),
            models == source_models(sources@),
            has_v1 <==> exists|k: int|
                0 <= k < i && (#[trigger] models[k]).format == FormatVersion::V1,
            has_semantic_v2 <==> exists|k: int|
                0 <= k < i && (#[trigger] models[k]).format == FormatVersion::V2
                    && models[k].schema.richness() > 0,
        decreases sources@.len() - i,
    {
        assert(models[i as int] == sources@[i as int]@);
        match sources[i].format {
            FormatVersion::V1 => {
                has_v1 = true;
                assert(models[i as int].format == FormatVersion::V1);
            },
            FormatVersion::V2 => {
                if sources[i].schema.semantic_richness() > 0 {
                    has_semantic_v2 = true;
                    assert(models[i as int].format == FormatVersion::V2);
                }
            },
        }
        i = i + 1;
    }
    has_v1 && has_semantic_v2
}

/// The room that strings take up in a v1 file at most: their bytes and five more for each.
pub open spec fn string_room(strings: Seq<Seq<char>>) -> nat
    decreases strings.len(),
{
    if strings.len() == 0 {
        0
    } else {
        string_room(strings.drop_last()) + vstd::utf8::encode_utf8(strings.last()).len() + 5
    }
}

/// The room for strings that a new v1 file is given, in the 32 bits that a v1 file has for it.
pub open spec fn preserved_length_for(strings: Seq<Seq<char>>) -> int {
    if string_room(strings) > MIN_STRING_TABLE_LENGTH {
        string_room(strings) as int % 0x1_0000_0000
    } else {
        MIN_STRING_TABLE_LENGTH as int
    }
}

/// The room for strings that a new v1 file is given.
pub fn preserved_length(strings: &[String]) -> (result: u32)
    requires
        string_room(text::views(strings@)) <= usize::MAX,
    ensures
        result == preserved_length_for(text::views(strings@)),
{
    let ghost texts = text::views(strings@);
    let mut room: usize = 0;
    let mut i: usize = 0;
    assert(texts.take(0) == Seq::<Seq<char>>::empty());
    while i < strings.len()
        invariant
            i <= strings@.len(),
            texts == text::views(strings@),
            room == string_room(texts.take(i as int)),
            string_room(texts) <= usize::MAX,
        decreases strings@.len() - i,
    {
        assert(texts.take(i as int + 1).drop_last() == texts.take(i as int));
        proof {
            room_grows(texts, i as int + 1);
        }
        let length: usize = strings[i].as_str().as_bytes().len();
        room = room + (length + 5);
        i = i + 1;
    }
    assert(texts.take(i as int) == texts);
    if room > MIN_STRING_TABLE_LENGTH {
        let wide: u64 = room as u64;
        assert(wide as u32 == wide % 0x1_0000_0000) by (bit_vector);
        wide as u32
    } else {
        MIN_STRING_TABLE_LENGTH as u32
    }
}

proof fn room_grows(strings: Seq<Seq<char>>, count: int)
    requires
        0 <= count <= strings.len(),
    ensures
        string_room(strings.take(count)) <= string_room(strings),
    decreases strings.len() - count,
{
    if count < strings.len() {
        room_grows(strings, count + 1);
        assert(strings.take(count + 1).drop_last() == strings.take(count));
    } else {
        assert(strings.take(count) == strings);
    }
}

/// The largest of some numbers and `least`.
pub open spec fn largest(values: Seq<u32>, least: u32) -> u32
    decreases values.len(),
{
    if values.len() == 0 {
        least
    } else if values.last() > largest(values.drop_last(), least) {
        values.last()
    } else {
        largest(values.drop_last(), least)
    }
}

/// The room for strings of a joined v1 file: as much as any v1 file among the sources has, and no
/// less than `least`.
pub fn joined_preserved_length(source_lengths: &[u32], least: u32) -> (result: u32)
    ensures
        result == largest(source_lengths@, least),
{
    let mut result: u32 = least;
    let mut i: usize = 0;
    assert(source_lengths@.take(0) == Seq::<u32>::empty());
    while i < source_lengths.len()
        invariant
            i <= source_lengths@.len(),
            result == largest(source_lengths@.take(i as int), least),
        decreases source_lengths@.len() - i,
    {
        assert(source_lengths@.take(i as int + 1).drop_last() == source_lengths@.take(i as int));
        if source_lengths[i] > result {
            result = source_lengths[i];
        }
        i = i + 1;
    }
    assert(source_lengths@.take(i as int) == source_lengths@);
    result
}

/// How many frames are copied at once.
pub open spec fn frames_per_copy(frame_len: u32) -> u64 {
    let frames = COPY_BUFFER_BYTES / (if frame_len == 0 { 1 } else { frame_len as u64 });
    if frames == 0 {
        1
    } else {
        frames
    }
}

/// How many frames are copied at once: as many as fit into the buffer, and one at least.
pub fn copy_chunk_frames(frame_len: u32) -> (result: u64)
    ensures
        result == frames_per_copy(frame_len),
        result >= 1,
{
    let length: u64 = if frame_len == 0 { 1 } else { frame_len as u64 };
    let frames: u64 = COPY_BUFFER_BYTES / length;
    if frames == 0 {
        1
    } else {
        frames
    }
}

/// The pieces that a range of frames is copied in.
pub fn copy_chunks(start: u64, end: u64, chunk_frames: u64) -> (result: Vec<Range<u64>>)
    requires
        chunk_frames > 0,
    ensures
        selection::indexes(result@) == span(start as int, end as int),
        forall|k: int|
            0 <= k < result@.len() ==> {
                let piece = #[trigger] result@[k];
                &&& piece.start < piece.end <= end
                &&& piece.start == start + k * chunk_frames
                &&& piece.end == end || piece.end - piece.start == chunk_frames
            },
{
    let mut chunks: Vec<Range<u64>> = Vec::new();
    let mut next: u64 = start;
    assert(selection::indexes(chunks@) =~= span(start as int, next as int));
    while next < end
        invariant
            chunk_frames > 0,
            start <= next,
            next <= end || chunks@.len() == 0,
            next == start + chunks@.len() * chunk_frames || next == end,
            selection::indexes(chunks@) == span(start as int, next as int),
            forall|k: int|
                0 <= k < chunks@.len() ==> {
                    let piece = #[trigger] chunks@[k];
                    &&& piece.start < piece.end <= end
                    &&& piece.start == start + k * chunk_frames
                    &&& piece.end == end || piece.end - piece.start == chunk_frames
                },
        decreases end - next,
    {
        let count: u64 = if end - next < chunk_frames { end - next } else { chunk_frames };
        let ghost before = chunks@;
        chunks.push(next..next + count);
        proof {
            assert(chunks@.drop_last() == before);
            assert(Seq::new(count as nat, |i: int| next + i) =~= span(
                next as int,
                next + count,
            ));
            assert(span(start as int, next as int) + span(next as int, next + count) =~= span(
                start as int,
                next + count,
            ));
            assert((before.len() + 1) * chunk_frames == before.len() * chunk_frames
                + chunk_frames) by (nonlinear_arith);
        }
        next = next + count;
    }
    assert(span(start as int, next as int) =~= span(start as int, end as int));
    chunks
}

/// What a page of a v2 file is written with.
#[derive(Debug, Clone, Copy, PartialEq, Eq, Structural)]
pub struct PageKind {
    pub codec: Codec,
    pub encoding: Encoding,
}

/// The first page from the end of the file on that is compressed, or the first page of the file.
///
/// `pages` holds what was read of the pages of the file, the last page first.
pub open spec fn telling_page(page_count: u64, pages: Seq<PageKind>) -> Option<PageKind>
    decreases pages.len(),
{
    if pages.len() == 0 || page_count == 0 {
        None
    } else if pages[0].codec != Codec::Uncompressed || page_count == 1 {
        Some(pages[0])
    } else {
        telling_page((page_count - 1) as u64, pages.skip(1))
    }
}

/// The page options that a v2 file was written with, as far as its pages tell.
pub open spec fn inherited_options(page_size: u32, page_count: u64, pages: Seq<PageKind>) -> PageOptions {
    let options = PageOptions { page_size, ..options::default_page_options() };
    match telling_page(page_count, pages) {
        Some(page) => options::fixed_to_page(options, page.codec, page.encoding),
        None => options,
    }
}

/// The page options that a v2 file was written with, as far as its pages tell.
///
/// `pages` holds what was read of the pages of the file, the last page first.
pub fn inherited_v2_options(page_size: u32, page_count: u64, pages: &[PageKind]) -> (result:
    PageOptions)
    ensures
        result == inherited_options(page_size, page_count, pages@),
{
    let mut options: PageOptions = PageOptions::new();
    options.page_size = page_size;
    let mut left: u64 = page_count;
    let mut i: usize = 0;
    assert(pages@.skip(0) == pages@);
    while i < pages.len() && left > 0
        invariant
            i <= pages@.len(),
            telling_page(page_count, pages@) == telling_page(left, pages@.skip(i as int)),
            options == (PageOptions { page_size, ..options::default_page_options() }),
        decreases pages@.len() - i,
    {
        let page: PageKind = pages[i];
        assert(pages@.skip(i as int)[0] == page);
        assert(pages@.skip(i as int).skip(1) == pages@.skip(i as int + 1));
        if page.codec != Codec::Uncompressed || left == 1 {
            return options.fixed_to(page.codec, page.encoding);
        }
        left = left - 1;
        i = i + 1;
    }
    options
}

/// The page options of an output: those asked for, or else those of the source; with the page size
/// that was asked for, or else that of the source where it has one.
pub fn output_v2_options(
    asked: Option<PageOptions>,
    inherited: PageOptions,
    page_size: Option<u32>,
    source_page_size: Option<u32>,
) -> (result: PageOptions)
    ensures
        ({
            let base = match asked {
                Some(options) => options,
                None => inherited,
            };
            result == (PageOptions {
                page_size: match (page_size, source_page_size) {
                    (Some(size), _) => size,
                    (None, Some(size)) => size,
                    (None, None) => base.page_size,
                },
                ..base
            })
        }),
{
    let mut options: PageOptions = match asked {
        Some(options) => options,
        None => inherited,
    };
    if let Some(size) = page_size {
        options.page_size = size;
    } else if let Some(size) = source_page_size {
        options.page_size = size;
    }
    options
}

/// Splits files and joins them.
#[derive(Debug, Clone, Copy, PartialEq, Eq, Structural)]
pub struct Organizer {
    pub operation_options: OperationOptions,
    /// Whether parts without frames are written.
    pub keep_empty_parts: bool,
    /// The format of a joined file; `None` follows from the sources.
    pub output_format: Option<FormatVersion>,
    /// The page size of v2 output; `None` leaves it to the source.
    pub output_page_size: Option<u32>,
}

impl Default for Organizer {
    fn default() -> (result: Self)
        ensures
            result.operation_options.v2 is None,
            !result.keep_empty_parts,
            result.output_format is None,
            result.output_page_size is None,
    {
        Organizer {
            operation_options: OperationOptions::default(),
            keep_empty_parts: false,
            output_format: None,
            output_page_size: None,
        }
    }
}

impl Organizer {
    /// The parts that a file is split into at the first frames of keys, or why it cannot be split.
    ///
    /// `lower_bounds` says how many frames lie in front of each key.
    pub fn split(&self, first_keys: &[Key], lower_bounds: &[u64], frame_count: u64) -> (result:
        Result<Vec<Range<u64>>, Error>)
        requires
            forall|k: int| 0 <= k < first_keys@.len() ==> (#[trigger] first_keys@[k]).valid(),
            forall|k: int, l: int|
                0 <= k < l < first_keys@.len() ==> (#[trigger] first_keys@[k]).kind() == (
                #[trigger] first_keys@[l]).kind(),
        ensures
            match result {
                Ok(parts) => split_refusal(first_keys@) is None && parts@ == split_parts_of(
                    lower_bounds@,
                    frame_count,
                    self.keep_empty_parts,
                ),
                Err(error) => split_refusal(first_keys@) == Some(error@),
            },
    {
        match check_split_keys(first_keys) {
            Ok(_) => Ok(split_parts(lower_bounds, frame_count, self.keep_empty_parts)),
            Err(error) => Err(error),
        }
    }

    /// The file that joining files makes, or why they cannot be joined.
    pub fn concat(&self, sources: &[SourceFacts]) -> (result: Result<ConcatPlan, Error>)
        requires
            keys_fit(source_models(sources@)),
        ensures
            match result {
                Err(error) => concat_refusal(source_models(sources@)) == Some(error@),
                Ok(plan) => {
                    let joined = joined_of(source_models(sources@))->Ok_0;
                    &&& concat_refusal(source_models(sources@)) is None
                    &&& plan.format == joined_format(joined, self.output_format)
                    &&& plan.all_v1 == joined.all_v1
                    &&& plan.schema@ == joined_schema(joined, plan.format)
                    &&& plan.title@ == joined.title
                    &&& text::views(plan.string_table@) == joined.strings
                    &&& plan.total_frames == joined.frames
                },
            },
    {
        plan_concat(sources, self.output_format)
    }

    /// The page options of v2 output; `inherited` and `source_page_size` are those of the source.
    pub fn v2_options(&self, inherited: PageOptions, source_page_size: Option<u32>) -> (result:
        PageOptions)
        ensures
            ({
                let base = match self.operation_options.v2 {
                    Some(options) => options,
                    None => inherited,
                };
                result == (PageOptions {
                    page_size: match (self.output_page_size, source_page_size) {
                        (Some(size), _) => size,
                        (None, Some(size)) => size,
                        (None, None) => base.page_size,
                    },
                    ..base
                })
            }),
    {
        output_v2_options(
            self.operation_options.v2,
            inherited,
            self.output_page_size,
            source_page_size,
        )
    }
}

/// The schema of a joined file is that of one of the files, and none of them says more about what
/// numbers stand for; a v1 file has the same fields and says nothing.
pub proof fn joined_schema_is_the_richest(sources: Seq<SourceModel>, index: int)
    requires
        joined_of(sources) is Ok,
        0 <= index < sources.len(),
    ensures
        ({
            let joined = joined_of(sources)->Ok_0;
            let schema = joined_schema(joined, FormatVersion::V2);
            &&& sources[index].schema.richness() <= schema.richness()
            &&& exists|k: int| 0 <= k < sources.len() && (#[trigger] sources[k]).schema == schema
            &&& sources[index].schema.compatible(schema)
            &&& sources[index].schema.compatible(joined_schema(joined, FormatVersion::V1))
            &&& joined_schema(joined, FormatVersion::V1).richness() == 0
        }),
{
    let joined = joined_of(sources)->Ok_0;
    let schema = joined_schema(joined, FormatVersion::V2);
    richest_is_one_of_them(sources, index);
    let k = choose|k: int| 0 <= k < sources.len() && (#[trigger] sources[k]).schema == schema;
    joined_file_holds_all(sources, index);
    joined_file_holds_all(sources, k);
    schema::plain_schemas_say_nothing(schema);
    schema::compatibility_is_an_equivalence(schema, joined.schema, sources[index].schema);
    schema::compatibility_is_an_equivalence(sources[index].schema, joined.schema, schema);
    schema::compatibility_is_an_equivalence(schema.plain(), schema, sources[index].schema);
    schema::compatibility_is_an_equivalence(sources[index].schema, schema, schema.plain());
}

proof fn richest_is_one_of_them(sources: Seq<SourceModel>, index: int)
    requires
        joined_of(sources) is Ok,
        0 <= index < sources.len(),
    ensures
        sources[index].schema.richness() <= joined_of(sources)->Ok_0.richest.richness(),
        exists|k: int|
            0 <= k < sources.len() && (#[trigger] sources[k]).schema == joined_of(
                sources,
            )->Ok_0.richest,
    decreases sources.len(),
{
    if sources.len() == 1 {
        assert(sources[0].schema == joined_of(sources)->Ok_0.richest);
    } else {
        let shorter = sources.drop_last();
        let last = sources.len() - 1;
        richest_is_one_of_them(shorter, if index < last { index } else { 0 });
        let k = choose|k: int|
            0 <= k < shorter.len() && (#[trigger] shorter[k]).schema == joined_of(
                shorter,
            )->Ok_0.richest;
        assert(sources[k] == shorter[k]);
        assert(sources[last] == sources.last());
        assert(index < last ==> sources[index] == shorter[index]);
    }
}

/// Where all files that say what numbers stand for say the same, the joined v2 file says that,
/// whichever of the files are v1 and wherever they stand.
pub proof fn files_that_say_nothing_change_nothing(sources: Seq<SourceModel>, telling: int)
    requires
        joined_of(sources) is Ok,
        0 <= telling < sources.len(),
        sources[telling].schema.richness() > 0,
        forall|k: int|
            0 <= k < sources.len() ==> (#[trigger] sources[k]).schema.richness() == 0
                || sources[k].schema == sources[telling].schema,
    ensures
        joined_schema(joined_of(sources)->Ok_0, FormatVersion::V2) == sources[telling].schema,
{
    richest_is_one_of_them(sources, telling);
}

/// A joined file is v1 where that was asked for, and where nothing was asked for exactly if every
/// file is v1.
pub proof fn joined_format_follows_the_files(
    sources: Seq<SourceModel>,
    asked: Option<FormatVersion>,
)
    requires
        joined_of(sources) is Ok,
    ensures
        joined_of(sources)->Ok_0.all_v1 <==> forall|k: int|
            0 <= k < sources.len() ==> (#[trigger] sources[k]).format == FormatVersion::V1,
        joined_of(sources)->Ok_0.any_v1 <==> exists|k: int|
            0 <= k < sources.len() && (#[trigger] sources[k]).format == FormatVersion::V1,
        asked matches Some(format) ==> joined_format(joined_of(sources)->Ok_0, asked) == format,
        asked is None ==> (joined_format(joined_of(sources)->Ok_0, asked) == FormatVersion::V1
            <==> forall|k: int|
            0 <= k < sources.len() ==> (#[trigger] sources[k]).format == FormatVersion::V1),
    decreases sources.len(),
{
    if sources.len() > 1 {
        let shorter = sources.drop_last();
        joined_format_follows_the_files(shorter, asked);
        assert(forall|k: int| 0 <= k < shorter.len() ==> #[trigger] shorter[k] == sources[k]);
        assert(forall|k: int| 0 <= k < shorter.len() ==> #[trigger] sources[k] == shorter[k]);
        assert(sources[sources.len() - 1] == sources.last());
    } else {
        assert(sources[0] == sources[0]);
    }
}

/// Whether string tables give the same index to the same string.
pub open spec fn strings_agree(left: Seq<Seq<char>>, right: Seq<Seq<char>>) -> bool {
    forall|i: int| 0 <= i < left.len() && i < right.len() ==> left[i] == right[i]
}

/// Whether every file can follow the files in front of it.
pub open spec fn files_match(sources: Seq<SourceModel>) -> bool {
    &&& forall|k: int|
        0 <= k < sources.len() ==> (#[trigger] sources[k]).schema.compatible(sources[0].schema)
    &&& forall|k: int| 0 <= k < sources.len() ==> (#[trigger] sources[k]).title == sources[0].title
    &&& forall|k: int, l: int|
        0 <= k < l < sources.len() ==> strings_agree(
            (#[trigger] sources[k]).strings,
            (#[trigger] sources[l]).strings,
        )
    &&& forall|k: int|
        #![trigger sources[k]]
        0 < k < sources.len() && sources[k].first_key is Some && last_key_of(sources.take(k))
            is Some ==> !sources[k].first_key->0.precedes(last_key_of(sources.take(k))->0)
    &&& frames_together(sources) <= u64::MAX
}

/// Files can be joined exactly if they have the same fields and the same title, no two of them give
/// different strings to one index, each starts no earlier than the ones in front of it end, and
/// their frames can be counted; and, unless a v1 file is among them, if they also say the same about
/// what numbers stand for.
pub proof fn files_join_exactly_if_they_match(sources: Seq<SourceModel>)
    requires
        sources.len() > 0,
    ensures
        joined_of(sources) is Ok <==> files_match(sources),
        concat_refusal(sources) is None <==> files_match(sources) && ((exists|k: int|
            0 <= k < sources.len() && (#[trigger] sources[k]).format == FormatVersion::V1)
            || (forall|k: int|
            0 <= k < sources.len() ==> (#[trigger] sources[k]).schema == sources[0].schema)),
{
    joined_only_if_matching(sources);
    if joined_of(sources) is Ok {
        joined_format_follows_the_files(sources, None);
        difference_is_noted(sources);
    }
}

proof fn difference_is_noted(sources: Seq<SourceModel>)
    requires
        joined_of(sources) is Ok,
    ensures
        joined_of(sources)->Ok_0.schema == sources[0].schema,
        !joined_of(sources)->Ok_0.semantics_differ <==> forall|k: int|
            0 <= k < sources.len() ==> (#[trigger] sources[k]).schema == sources[0].schema,
    decreases sources.len(),
{
    if sources.len() > 1 {
        let shorter = sources.drop_last();
        difference_is_noted(shorter);
        assert(forall|k: int| 0 <= k < shorter.len() ==> #[trigger] shorter[k] == sources[k]);
        assert(forall|k: int| 0 <= k < shorter.len() ==> #[trigger] sources[k] == shorter[k]);
        assert(sources[sources.len() - 1] == sources.last());
    }
}

proof fn joined_strings_hold_the_longest(sources: Seq<SourceModel>)
    requires
        joined_of(sources) is Ok,
    ensures
        exists|k: int|
            0 <= k < sources.len() && (#[trigger] sources[k]).strings == joined_of(
                sources,
            )->Ok_0.strings,
    decreases sources.len(),
{
    if sources.len() > 1 {
        let shorter = sources.drop_last();
        joined_strings_hold_the_longest(shorter);
        let k = choose|k: int|
            0 <= k < shorter.len() && (#[trigger] shorter[k]).strings == joined_of(
                shorter,
            )->Ok_0.strings;
        assert(sources[k] == shorter[k]);
        assert(sources[sources.len() - 1] == sources.last());
    } else {
        assert(sources[0].strings == joined_of(sources)->Ok_0.strings);
    }
}

proof fn joined_only_if_matching(sources: Seq<SourceModel>)
    requires
        sources.len() > 0,
    ensures
        joined_of(sources) is Ok <==> files_match(sources),
    decreases sources.len(),
{
    if sources.len() == 1 {
        assert(sources.drop_last() == Seq::<SourceModel>::empty());
        reveal_with_fuel(frames_together, 2);
        schema::compatibility_is_an_equivalence(
            sources[0].schema,
            sources[0].schema,
            sources[0].schema,
        );
    } else {
        let shorter = sources.drop_last();
        let last = sources.len() - 1;
        joined_only_if_matching(shorter);
        assert(sources.take(last) == shorter);
        if files_match(sources) {
            shorter_matches(sources);
            joined_strings_hold_the_longest(shorter);
            joined_file_holds_all(shorter, 0);
            joined_last_key(shorter);
            let joined = joined_of(shorter)->Ok_0;
            let k = choose|k: int|
                0 <= k < shorter.len() && (#[trigger] shorter[k]).strings == joined.strings;
            assert(sources[k] == shorter[k]);
            assert(strings_agree(sources[k].strings, sources[last].strings));
            assert(sources[last].title == sources[0].title);
            assert(sources[last].schema.compatible(sources[0].schema));
            assert(joined.title == sources[0].title);
        }
        if joined_of(sources) is Ok {
            joined_file_holds_all(sources, 0);
            joined_last_key(shorter);
            assert forall|k: int| 0 <= k < sources.len() implies (
            #[trigger] sources[k]).schema.compatible(sources[0].schema) && sources[k].title
                == sources[0].title by {
                joined_file_holds_all(sources, k);
            }
            assert forall|k: int, l: int| 0 <= k < l < sources.len() implies strings_agree(
                (#[trigger] sources[k]).strings,
                (#[trigger] sources[l]).strings,
            ) by {
                joined_file_holds_all(sources, k);
                joined_file_holds_all(sources, l);
                prefixes_agree(
                    sources[k].strings,
                    sources[l].strings,
                    joined_of(sources)->Ok_0.strings,
                );
            }
            assert forall|k: int|
                #![trigger sources[k]]
                0 < k < sources.len() && sources[k].first_key is Some && last_key_of(
                    sources.take(k),
                ) is Some implies !sources[k].first_key->0.precedes(
                last_key_of(sources.take(k))->0,
            ) by {
                joined_files_are_in_order(sources, k);
            }
        }
    }
}

proof fn prefixes_agree(left: Seq<Seq<char>>, right: Seq<Seq<char>>, whole: Seq<Seq<char>>)
    requires
        left.is_prefix_of(whole),
        right.is_prefix_of(whole),
    ensures
        strings_agree(left, right),
{
    assert forall|i: int| 0 <= i < left.len() && i < right.len() implies left[i] == right[i] by {
        assert(left[i] == whole[i]);
        assert(right[i] == whole[i]);
    }
}

proof fn shorter_matches(sources: Seq<SourceModel>)
    requires
        sources.len() > 1,
        files_match(sources),
    ensures
        files_match(sources.drop_last()),
{
    let shorter = sources.drop_last();
    assert(forall|k: int| 0 <= k < shorter.len() ==> #[trigger] shorter[k] == sources[k]);
    assert forall|k: int|
        #![trigger shorter[k]]
        0 < k < shorter.len() && shorter[k].first_key is Some && last_key_of(shorter.take(k))
            is Some implies !shorter[k].first_key->0.precedes(
        last_key_of(shorter.take(k))->0,
    ) by {
        assert(shorter.take(k) == sources.take(k));
        assert(sources[k] == shorter[k]);
    }
}

/// The string table of a joined file is the longest of the tables, and the table of every file is
/// its start: no index comes to mean another string.
pub proof fn joined_strings_keep_their_indexes(sources: Seq<SourceModel>, index: int, string: int)
    requires
        joined_of(sources) is Ok,
        0 <= index < sources.len(),
        0 <= string < sources[index].strings.len(),
    ensures
        string < joined_of(sources)->Ok_0.strings.len(),
        joined_of(sources)->Ok_0.strings[string] == sources[index].strings[string],
        exists|k: int|
            0 <= k < sources.len() && (#[trigger] sources[k]).strings == joined_of(
                sources,
            )->Ok_0.strings,
{
    joined_file_holds_all(sources, index);
    joined_strings_hold_the_longest(sources);
}

/// Files are refused for what is wrong with them: a refusal for the schema, the title or the strings
/// means that two of the files differ there, one for the order that a file starts in front of where
/// those before it end, and any other that there are no files or more frames than can be counted.
pub proof fn refusals_tell_what_is_wrong(sources: Seq<SourceModel>)
    requires
        joined_of(sources) is Err,
    ensures
        match joined_of(sources)->Err_0 {
            Failure::EmptySources => sources.len() == 0,
            Failure::IncompatibleSchema => exists|k: int|
                0 <= k < sources.len() && !(#[trigger] sources[k]).schema.compatible(
                    sources[0].schema,
                ),
            Failure::IncompatibleTitle => exists|k: int|
                0 <= k < sources.len() && (#[trigger] sources[k]).title != sources[0].title,
            Failure::IncompatibleStringTable => exists|k: int, l: int|
                0 <= k < l < sources.len() && !strings_agree(
                    (#[trigger] sources[k]).strings,
                    (#[trigger] sources[l]).strings,
                ),
            Failure::IncompatibleKeyOrder => exists|k: int|
                #![trigger sources[k]]
                0 < k < sources.len() && sources[k].first_key is Some && last_key_of(
                    sources.take(k),
                ) is Some && sources[k].first_key->0.precedes(last_key_of(sources.take(k))->0),
            _ => frames_together(sources) > u64::MAX,
        },
    decreases sources.len(),
{
    if sources.len() > 1 {
        let shorter = sources.drop_last();
        let last = sources.len() - 1;
        assert(sources.take(last) == shorter);
        assert(forall|k: int| 0 <= k < shorter.len() ==> #[trigger] shorter[k] == sources[k]);
        assert(sources[last] == sources.last());
        if joined_of(shorter) is Err {
            refusals_tell_what_is_wrong(shorter);
            assert(forall|k: int|
                #![trigger shorter[k]]
                0 < k < shorter.len() ==> shorter.take(k) == sources.take(k));
        } else {
            joined_file_holds_all(shorter, 0);
            joined_last_key(shorter);
            joined_strings_hold_the_longest(shorter);
            let joined = joined_of(shorter)->Ok_0;
            let k = choose|k: int|
                0 <= k < shorter.len() && (#[trigger] shorter[k]).strings == joined.strings;
            assert(sources[k] == shorter[k]);
            assert(joined.title == shorter[0].title);
        }
    }
}

/// Leaving out empty parts leaves out nothing else: with them there is one part more than there are
/// keys, and without them the parts that hold frames are left, in the same order.
pub proof fn only_empty_parts_are_left_out(lower_bounds: Seq<u64>, frame_count: u64)
    ensures
        split_parts_of(lower_bounds, frame_count, true).len() == lower_bounds.len() + 1,
        split_parts_of(lower_bounds, frame_count, false) == split_parts_of(
            lower_bounds,
            frame_count,
            true,
        ).filter(|part: Range<u64>| part.start < part.end),
{
    let points = boundaries(lower_bounds).push(frame_count);
    one_boundary_more(lower_bounds);
    parts_without_empty_ones(points);
}

proof fn one_boundary_more(lower_bounds: Seq<u64>)
    ensures
        boundaries(lower_bounds).len() == lower_bounds.len() + 1,
    decreases lower_bounds.len(),
{
    if lower_bounds.len() > 0 {
        one_boundary_more(lower_bounds.drop_last());
    }
}

proof fn parts_without_empty_ones(points: Seq<u64>)
    requires
        points.len() > 0,
    ensures
        parts_between(points, true).len() == points.len() - 1,
        parts_between(points, false) == parts_between(points, true).filter(
            |part: Range<u64>| part.start < part.end,
        ),
    decreases points.len(),
{
    let holds = |part: Range<u64>| part.start < part.end;
    reveal(Seq::filter);
    if points.len() >= 2 {
        parts_without_empty_ones(points.drop_last());
        let whole = parts_between(points, true);
        assert(whole.drop_last() == parts_between(points.drop_last(), true));
    }
}

/// Keys that split a file come in order, all of them and not just neighbours.
pub proof fn split_keys_are_in_order(keys: Seq<Key>)
    ensures
        split_refusal(keys) is None <==> keys.len() > 0 && forall|k: int, l: int|
            0 <= k <= l < keys.len() ==> (#[trigger] keys[k]).rank() <= (#[trigger] keys[l]).rank(),
        split_refusal(keys) == Some(Failure::EmptySplitKeys) <==> keys.len() == 0,
{
    if split_refusal(keys) is None {
        assert forall|k: int, l: int| 0 <= k <= l < keys.len() implies (#[trigger] keys[k]).rank()
            <= (#[trigger] keys[l]).rank() by {
            neighbours_in_order(keys, k, l);
        }
    } else if keys.len() > 0 {
        let k = choose|k: int|
            0 <= k < keys.len() - 1 && (#[trigger] keys[k + 1]).precedes(keys[k]);
        assert(keys[k + 1].rank() < keys[k].rank());
    }
}

proof fn neighbours_in_order(keys: Seq<Key>, first: int, last: int)
    requires
        split_refusal(keys) is None,
        0 <= first <= last < keys.len(),
    ensures
        keys[first].rank() <= keys[last].rank(),
    decreases last - first,
{
    if first < last {
        neighbours_in_order(keys, first, last - 1);
        assert(!keys[(last - 1) + 1].precedes(keys[last - 1]));
    }
}

/// No two parts of a file have the same name, and the name of every part starts with the stem.
pub proof fn parts_have_their_own_names(stem: Seq<char>, first: nat, second: nat)
    ensures
        part_name_text(stem, first as int) == part_name_text(stem, second as int) ==> first
            == second,
        stem.is_prefix_of(part_name_text(stem, first as int)),
{
    reveal_strlit(".part");
    reveal_strlit(".fwob");
    let one = part_name_text(stem, first as int);
    let other = part_name_text(stem, second as int);
    let start = stem + ".part"@;
    assert(one.subrange(start.len() as int, one.len() - 5) == number::decimal(first));
    assert(other.subrange(start.len() as int, other.len() - 5) == number::decimal(second));
    number::decimal_reads_back(first);
    number::decimal_reads_back(second);
}

/// A joined v1 file has at least the room for strings that each of its v1 sources has, and no more
/// than one of them has or than is needed.
pub proof fn room_is_that_of_the_largest(values: Seq<u32>, least: u32)
    ensures
        least <= largest(values, least),
        forall|k: int| 0 <= k < values.len() ==> #[trigger] values[k] <= largest(values, least),
        largest(values, least) == least || values.contains(largest(values, least)),
    decreases values.len(),
{
    if values.len() > 0 {
        let shorter = values.drop_last();
        room_is_that_of_the_largest(shorter, least);
        assert forall|k: int| 0 <= k < values.len() implies #[trigger] values[k] <= largest(
            values,
            least,
        ) by {
            if k < shorter.len() {
                assert(shorter[k] == values[k]);
            }
        }
        assert(values[values.len() - 1] == values.last());
        if shorter.contains(largest(shorter, least)) {
            let k = choose|k: int| 0 <= k < shorter.len() && shorter[k] == largest(shorter, least);
            assert(values[k] == largest(shorter, least));
        }
    }
}

/// The room for strings of a new v1 file is what its strings need, and never less than every v1 file
/// is given; the need of strings behind each other adds up.
pub proof fn strings_have_room(strings: Seq<Seq<char>>, more: Seq<Seq<char>>, text: Seq<char>)
    requires
        string_room(strings) <= u32::MAX,
    ensures
        preserved_length_for(strings) >= string_room(strings),
        preserved_length_for(strings) >= MIN_STRING_TABLE_LENGTH,
        preserved_length_for(strings) == string_room(strings) || preserved_length_for(strings)
            == MIN_STRING_TABLE_LENGTH,
        string_room(strings + more) == string_room(strings) + string_room(more),
        string_room(seq![text]) == vstd::utf8::encode_utf8(text).len() + 5,
{
    rooms_add_up(strings, more);
    assert(seq![text].drop_last() == Seq::<Seq<char>>::empty());
    reveal_with_fuel(string_room, 2);
}

proof fn rooms_add_up(strings: Seq<Seq<char>>, more: Seq<Seq<char>>)
    ensures
        string_room(strings + more) == string_room(strings) + string_room(more),
    decreases more.len(),
{
    if more.len() == 0 {
        assert(strings + more == strings);
    } else {
        assert((strings + more).drop_last() == strings + more.drop_last());
        rooms_add_up(strings, more.drop_last());
    }
}

/// As many frames are copied at once as fit into the buffer; one frame more would not fit. A frame
/// that is longer than the buffer is copied alone.
pub proof fn copies_fill_the_buffer(frame_len: u32)
    requires
        frame_len > 0,
    ensures
        frames_per_copy(frame_len) >= 1,
        frames_per_copy(frame_len) * frame_len <= COPY_BUFFER_BYTES || frames_per_copy(frame_len)
            == 1,
        (frames_per_copy(frame_len) + 1) * frame_len > COPY_BUFFER_BYTES,
{
    let length = frame_len as int;
    let frames = (COPY_BUFFER_BYTES as int) / length;
    assert(frames * length <= COPY_BUFFER_BYTES < (frames + 1) * length) by (nonlinear_arith)
        requires
            frames == (COPY_BUFFER_BYTES as int) / length,
            length > 0,
    ;
    assert(2 * length > 1 * length);
}

/// A file goes on being written as its last compressed page was; where no page is compressed, as its
/// first page was.
pub proof fn the_last_compressed_page_tells(page_size: u32, pages: Seq<PageKind>, index: int)
    requires
        0 <= index < pages.len() <= u64::MAX,
        forall|k: int| 0 <= k < index ==> (#[trigger] pages[k]).codec == Codec::Uncompressed,
        pages[index].codec != Codec::Uncompressed || index == pages.len() - 1,
    ensures
        ({
            let inherited = inherited_options(page_size, pages.len() as u64, pages);
            &&& inherited.page_size == page_size
            &&& inherited.codec == pages[index].codec
            &&& inherited.codec_selection == CodecSelection::Fixed(pages[index].codec)
            &&& inherited.encoding == pages[index].encoding
            &&& inherited.encoding_selection == EncodingSelection::Fixed(pages[index].encoding)
        }),
{
    telling_page_is_found(pages.len() as u64, pages, index);
}

proof fn telling_page_is_found(page_count: u64, pages: Seq<PageKind>, index: int)
    requires
        0 <= index < pages.len(),
        page_count == pages.len(),
        forall|k: int| 0 <= k < index ==> (#[trigger] pages[k]).codec == Codec::Uncompressed,
        pages[index].codec != Codec::Uncompressed || index == pages.len() - 1,
    ensures
        telling_page(page_count, pages) == Some(pages[index]),
    decreases pages.len(),
{
    if index > 0 {
        let rest = pages.skip(1);
        assert(pages[0].codec == Codec::Uncompressed);
        assert forall|k: int| 0 <= k < index - 1 implies (#[trigger] rest[k]).codec
            == Codec::Uncompressed by {
            assert(pages[k + 1].codec == Codec::Uncompressed);
        }
        telling_page_is_found((page_count - 1) as u64, rest, index - 1);
    }
}

/// Where v1 files say nothing about what numbers stand for, joining relaxes the comparison exactly if
/// a v1 file is joined and the joined schema says something nevertheless.
pub proof fn relaxing_is_joining_with_files_that_cannot_say(sources: Seq<SourceModel>)
    requires
        joined_of(sources) is Ok,
        forall|k: int|
            0 <= k < sources.len() && (#[trigger] sources[k]).format == FormatVersion::V1
                ==> sources[k].schema.richness() == 0,
    ensures
        relaxes_semantics(sources) <==> joined_of(sources)->Ok_0.any_v1 && joined_schema(
            joined_of(sources)->Ok_0,
            FormatVersion::V2,
        ).richness() > 0,
{
    let richest = joined_of(sources)->Ok_0.richest;
    joined_format_follows_the_files(sources, None);
    assert forall|k: int| 0 <= k < sources.len() implies (#[trigger] sources[k]).schema.richness()
        <= richest.richness() by {
        richest_is_one_of_them(sources, k);
    }
    richest_is_one_of_them(sources, 0);
    let k = choose|k: int| 0 <= k < sources.len() && (#[trigger] sources[k]).schema == richest;
    assert(sources[k].format == FormatVersion::V1 || sources[k].format == FormatVersion::V2);
}

} // verus!

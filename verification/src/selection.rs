//! Selections of frames by key.

use crate::error::{Error, Failure};
use crate::key;
use crate::key::{Key, KeyType};
use crate::number;
use crate::text;
use std::ops::Range;
use vstd::prelude::*;
use vstd::string::*;

verus! {

/// Which keys are selected.
#[derive(Debug, Clone, Copy, PartialEq, Eq, Structural)]
pub enum KeySelector {
    All,
    Exact(Key),
    From(Key),
    Through(Key),
    Between { first: Key, last: Key },
}

/// The texts of the keys in a selector.
#[derive(Debug)]
pub enum SelectorTexts {
    Exact(String),
    From(String),
    Through(String),
    Between(String, String),
}

/// The texts of the keys in a selector, as characters.
pub enum SelectorParts {
    Exact(Seq<char>),
    From(Seq<char>),
    Through(Seq<char>),
    Between(Seq<char>, Seq<char>),
}

impl View for SelectorTexts {
    type V = SelectorParts;

    open spec fn view(&self) -> SelectorParts {
        match *self {
            SelectorTexts::Exact(key) => SelectorParts::Exact(key@),
            SelectorTexts::From(key) => SelectorParts::From(key@),
            SelectorTexts::Through(key) => SelectorParts::Through(key@),
            SelectorTexts::Between(first, last) => SelectorParts::Between(first@, last@),
        }
    }
}

/// The place of the first two dots in a row, or the length of the text where there are none.
pub open spec fn first_dots(value: Seq<char>) -> int
    decreases value.len(),
{
    if value.len() < 2 {
        value.len() as int
    } else if value[0] == '.' && value[1] == '.' {
        0
    } else {
        1 + first_dots(value.skip(1))
    }
}

/// Whether two dots stand in a row somewhere in a text.
pub open spec fn has_dots(value: Seq<char>) -> bool {
    first_dots(value) < value.len()
}

/// `KEY`, `FIRST..`, `..LAST` or `FIRST..LAST`: the keys in a selector. Two dots alone select
/// nothing: leaving selectors out is how everything is selected.
pub open spec fn selector_parts(value: Seq<char>) -> Result<SelectorParts, Failure> {
    let dots = first_dots(value);
    if !has_dots(value) {
        Ok(SelectorParts::Exact(value))
    } else {
        let first = value.take(dots);
        let last = value.skip(dots + 2);
        if has_dots(last) || (first.len() == 0 && last.len() == 0) {
            Err(Failure::InvalidSelector(value))
        } else if last.len() == 0 {
            Ok(SelectorParts::From(first))
        } else if first.len() == 0 {
            Ok(SelectorParts::Through(last))
        } else {
            Ok(SelectorParts::Between(first, last))
        }
    }
}

/// The selector of the keys between two, both of them included.
pub open spec fn between(first: Key, last: Key) -> Result<KeySelector, Failure> {
    if last.precedes(first) {
        Err(Failure::ReversedSelector { first, last })
    } else {
        Ok(KeySelector::Between { first, last })
    }
}

/// The selector that a text denotes where keys are integers, or why it denotes none.
pub open spec fn selector_of(value: Seq<char>, kind: KeyType) -> Result<KeySelector, Failure> {
    match selector_parts(value) {
        Err(failure) => Err(failure),
        Ok(SelectorParts::Exact(key)) => match Key::read(kind, key) {
            Ok(key) => Ok(KeySelector::Exact(key)),
            Err(failure) => Err(failure),
        },
        Ok(SelectorParts::From(key)) => match Key::read(kind, key) {
            Ok(key) => Ok(KeySelector::From(key)),
            Err(failure) => Err(failure),
        },
        Ok(SelectorParts::Through(key)) => match Key::read(kind, key) {
            Ok(key) => Ok(KeySelector::Through(key)),
            Err(failure) => Err(failure),
        },
        Ok(SelectorParts::Between(first, last)) => match Key::read(kind, first) {
            Err(failure) => Err(failure),
            Ok(first) => match Key::read(kind, last) {
                Err(failure) => Err(failure),
                Ok(last) => between(first, last),
            },
        },
    }
}

/// The place of the first two dots in a row from `from` on, or the number of characters.
fn dots_from(chars: &Vec<char>, from: usize) -> (result: usize)
    requires
        from <= chars@.len(),
    ensures
        from <= result <= chars@.len(),
        result - from == first_dots(chars@.skip(from as int)),
        result < chars@.len() ==> result + 2 <= chars@.len(),
{
    let ghost value = chars@.skip(from as int);
    let length: usize = chars.len();
    let mut i: usize = from;
    assert(value.skip(0) == value);
    while length - i >= 2
        invariant
            from <= i <= length,
            length == chars@.len(),
            value == chars@.skip(from as int),
            first_dots(value) == i - from + first_dots(value.skip(i - from)),
        decreases length - i,
    {
        assert(value.skip(i - from)[0] == chars@[i as int]);
        assert(value.skip(i - from)[1] == chars@[i + 1]);
        if chars[i] == '.' && chars[i + 1] == '.' {
            return i;
        }
        assert(value.skip(i - from).skip(1) == value.skip(i + 1 - from));
        i = i + 1;
    }
    length
}

/// The texts of the keys in a selector, or that it is none.
pub fn split_selector(value: &str) -> (result: Result<SelectorTexts, Error>)
    ensures
        match result {
            Ok(texts) => selector_parts(value@) == Ok::<SelectorParts, Failure>(texts@),
            Err(error) => selector_parts(value@) == Err::<SelectorParts, Failure>(error@),
        },
{
    let chars: Vec<char> = text::chars_of(value);
    let dots: usize = dots_from(&chars, 0);
    assert(chars@.skip(0) == value@);
    if dots == chars.len() {
        return Ok(SelectorTexts::Exact(value.to_owned()));
    }
    let rest: usize = dots + 2;
    let more: usize = dots_from(&chars, rest);
    let mut first: String = String::new();
    text::push_chars(&mut first, &chars, 0, dots);
    assert(chars@.subrange(0, dots as int) == value@.take(dots as int));
    assert(first@ == value@.take(dots as int));
    let mut last: String = String::new();
    text::push_chars(&mut last, &chars, rest, chars.len());
    assert(chars@.subrange(rest as int, chars@.len() as int) == value@.skip(rest as int));
    assert(last@ == value@.skip(rest as int));
    if more < chars.len() || (dots == 0 && rest == chars.len()) {
        Err(Error::InvalidSelector(value.to_owned()))
    } else if rest == chars.len() {
        Ok(SelectorTexts::From(first))
    } else if dots == 0 {
        Ok(SelectorTexts::Through(last))
    } else {
        Ok(SelectorTexts::Between(first, last))
    }
}

impl KeySelector {
    /// Whether all keys in the selector are of a kind.
    pub open spec fn is_of(self, kind: KeyType) -> bool {
        match self {
            KeySelector::All => true,
            KeySelector::Exact(key) | KeySelector::From(key) | KeySelector::Through(key) => {
                key.kind() == kind
            },
            KeySelector::Between { first, last } => first.kind() == kind && last.kind() == kind,
        }
    }

    /// Whether the selector selects frames with a key of this rank.
    pub open spec fn selects(self, rank: int) -> bool {
        match self {
            KeySelector::All => true,
            KeySelector::Exact(key) => rank == key.rank(),
            KeySelector::From(key) => key.rank() <= rank,
            KeySelector::Through(key) => rank <= key.rank(),
            KeySelector::Between { first, last } => first.rank() <= rank <= last.rank(),
        }
    }

    /// The keys whose places in a file say where the selected frames start and end; `None` where
    /// they start or end with the file.
    pub fn bound_keys(&self) -> (result: (Option<Key>, Option<Key>))
        ensures
            result == match *self {
                KeySelector::All => (None, None),
                KeySelector::Exact(key) => (Some(key), Some(key)),
                KeySelector::From(key) => (Some(key), None),
                KeySelector::Through(key) => (None, Some(key)),
                KeySelector::Between { first, last } => (Some(first), Some(last)),
            },
            forall|rank: int|
                self.selects(rank) <==> (result.0 matches Some(key) ==> key.rank() <= rank) && (
                result.1 matches Some(key) ==> rank <= key.rank()),
    {
        match *self {
            KeySelector::All => (None, None),
            KeySelector::Exact(key) => (Some(key), Some(key)),
            KeySelector::From(key) => (Some(key), None),
            KeySelector::Through(key) => (None, Some(key)),
            KeySelector::Between { first, last } => (Some(first), Some(last)),
        }
    }

    /// The selector of the keys between two, or that they are the wrong way round.
    pub fn between(first: Key, last: Key) -> (result: Result<Self, Error>)
        requires
            first.kind() == last.kind(),
            first.valid(),
            last.valid(),
        ensures
            match result {
                Ok(selector) => between(first, last) == Ok::<KeySelector, Failure>(selector),
                Err(error) => between(first, last) == Err::<KeySelector, Failure>(error@),
            },
    {
        if last.is_before(&first) {
            Err(Error::ReversedSelector { first, last })
        } else {
            Ok(KeySelector::Between { first, last })
        }
    }

    /// The selector that a text denotes where keys are integers, or why it denotes none.
    pub fn parse(value: &str, key_type: KeyType) -> (result: Result<Self, Error>)
        requires
            key_type.is_whole(),
        ensures
            match result {
                Ok(selector) => selector_of(value@, key_type) == Ok::<KeySelector, Failure>(
                    selector,
                ) && selector.is_of(key_type),
                Err(error) => selector_of(value@, key_type) == Err::<KeySelector, Failure>(error@),
            },
    {
        match split_selector(value) {
            Err(error) => Err(error),
            Ok(SelectorTexts::Exact(key)) => match Key::parse(key_type, key.as_str()) {
                Ok(key) => Ok(KeySelector::Exact(key)),
                Err(error) => Err(error),
            },
            Ok(SelectorTexts::From(key)) => match Key::parse(key_type, key.as_str()) {
                Ok(key) => Ok(KeySelector::From(key)),
                Err(error) => Err(error),
            },
            Ok(SelectorTexts::Through(key)) => match Key::parse(key_type, key.as_str()) {
                Ok(key) => Ok(KeySelector::Through(key)),
                Err(error) => Err(error),
            },
            Ok(SelectorTexts::Between(first, last)) => match Key::parse(key_type, first.as_str()) {
                Err(error) => Err(error),
                Ok(first) => match Key::parse(key_type, last.as_str()) {
                    Err(error) => Err(error),
                    Ok(last) => KeySelector::between(first, last),
                },
            },
        }
    }
}

/// Where the keys of a selector stand in a file: `lower` is the number of frames in front of its
/// first key, `upper` that of the frames up to its last key.
#[derive(Debug, Clone, Copy, PartialEq, Eq, Structural)]
pub struct KeyBounds {
    pub lower: u64,
    pub upper: u64,
}

/// Where the selected frames start.
pub open spec fn range_start(selector: KeySelector, bounds: KeyBounds) -> u64 {
    match selector {
        KeySelector::All | KeySelector::Through(_) => 0,
        _ => bounds.lower,
    }
}

/// Where the selected frames end.
pub open spec fn range_end(selector: KeySelector, bounds: KeyBounds, frame_count: u64) -> u64 {
    match selector {
        KeySelector::All | KeySelector::From(_) => frame_count,
        _ => bounds.upper,
    }
}

/// Whether a frame index lies in a range.
pub open spec fn in_range(range: Range<u64>, index: int) -> bool {
    range.start <= index < range.end
}

/// Whether a frame index lies in one of some ranges.
pub open spec fn in_ranges(ranges: Seq<Range<u64>>, index: int) -> bool {
    exists|k: int| 0 <= k < ranges.len() && in_range(#[trigger] ranges[k], index)
}

/// Whether one of the selectors selects a frame index; without selectors, all are selected.
pub open spec fn selected(
    selectors: Seq<KeySelector>,
    bounds: Seq<KeyBounds>,
    frame_count: u64,
    index: int,
) -> bool {
    if selectors.len() == 0 {
        0 <= index < frame_count
    } else {
        exists|k: int|
            0 <= k < selectors.len() && range_start(#[trigger] selectors[k], bounds[k]) <= index
                < range_end(selectors[k], bounds[k], frame_count)
    }
}

/// Ranges in the order of their frames, none of them empty, and a gap between each two.
pub open spec fn is_canonical(ranges: Seq<Range<u64>>) -> bool {
    &&& forall|k: int| 0 <= k < ranges.len() ==> (#[trigger] ranges[k]).start < ranges[k].end
    &&& forall|k: int, l: int|
        0 <= k < l < ranges.len() ==> (#[trigger] ranges[k]).end < (#[trigger] ranges[l]).start
}

/// How many frames ranges hold together.
pub open spec fn total_length(ranges: Seq<Range<u64>>) -> int
    decreases ranges.len(),
{
    if ranges.len() == 0 {
        0
    } else {
        total_length(ranges.drop_last()) + (ranges.last().end - ranges.last().start)
    }
}

/// The frame indexes in ranges, one behind the other.
pub open spec fn indexes(ranges: Seq<Range<u64>>) -> Seq<int>
    decreases ranges.len(),
{
    if ranges.len() == 0 {
        Seq::empty()
    } else {
        let last = ranges.last();
        indexes(ranges.drop_last()) + Seq::new(
            (last.end - last.start) as nat,
            |i: int| last.start + i,
        )
    }
}

/// The frames that selectors select, as ranges.
#[derive(Debug, PartialEq, Eq)]
pub struct FrameSelection {
    ranges: Vec<Range<u64>>,
    frame_count: u64,
}

/// Ranges of frames, and how many frames are in them.
#[verifier::ext_equal]
pub struct SelectionModel {
    pub ranges: Seq<Range<u64>>,
    pub frame_count: u64,
}

impl View for FrameSelection {
    type V = SelectionModel;

    closed spec fn view(&self) -> SelectionModel {
        SelectionModel { ranges: self.ranges@, frame_count: self.frame_count }
    }
}

impl FrameSelection {
    /// Ranges in order with gaps between them and the number of frames in them. A selection of all
    /// frames of a file that has none is one range without frames.
    pub open spec fn valid(self) -> bool {
        &&& is_canonical(self@.ranges) || (self@.ranges.len() == 1 && self@.ranges[0].start == 0
            && self@.ranges[0].end == 0)
        &&& self@.frame_count == total_length(self@.ranges)
    }

    /// The frames that one of the selectors selects; all frames where there is no selector.
    ///
    /// Overlapping and adjacent selections become one range.
    pub fn resolve(frame_count: u64, selectors: &[KeySelector], bounds: &[KeyBounds]) -> (result:
        Self)
        requires
            selectors@.len() == bounds@.len(),
        ensures
            result.valid(),
            selectors@.len() > 0 ==> is_canonical(result@.ranges),
            selectors@.len() == 0 ==> result@.ranges.len() == 1 && result@.ranges[0].start == 0
                && result@.ranges[0].end == frame_count,
            forall|index: int|
                #![trigger in_ranges(result@.ranges, index)]
                in_ranges(result@.ranges, index) <==> selected(
                    selectors@,
                    bounds@,
                    frame_count,
                    index,
                ),
    {
        if selectors.len() == 0 {
            let mut ranges: Vec<Range<u64>> = Vec::new();
            ranges.push(0..frame_count);
            let result = FrameSelection { ranges, frame_count };
            proof {
                assert(result@.ranges.drop_last() == Seq::<Range<u64>>::empty());
                reveal_with_fuel(total_length, 2);
                assert forall|index: int|
                    #![trigger in_ranges(result@.ranges, index)]
                    in_ranges(result@.ranges, index) <==> 0 <= index < frame_count by {
                    if 0 <= index < frame_count {
                        assert(in_range(result@.ranges[0], index));
                    }
                }
            }
            return result;
        }
        let mut sorted: Vec<Range<u64>> = Vec::new();
        let mut i: usize = 0;
        while i < selectors.len()
            invariant
                i <= selectors@.len() == bounds@.len(),
                is_sorted(sorted@),
                forall|index: int|
                    #![trigger in_ranges(sorted@, index)]
                    in_ranges(sorted@, index) <==> selected_up_to(
                        selectors@,
                        bounds@,
                        frame_count,
                        i as int,
                        index,
                    ),
            decreases selectors@.len() - i,
        {
            let start: u64 = match selectors[i] {
                KeySelector::All | KeySelector::Through(_) => 0,
                _ => bounds[i].lower,
            };
            let end: u64 = match selectors[i] {
                KeySelector::All | KeySelector::From(_) => frame_count,
                _ => bounds[i].upper,
            };
            let ghost before = sorted@;
            if start < end {
                insert_sorted(&mut sorted, start, end);
            }
            proof {
                assert forall|index: int|
                    #![trigger in_ranges(sorted@, index)]
                    in_ranges(sorted@, index) <==> selected_up_to(
                        selectors@,
                        bounds@,
                        frame_count,
                        i + 1,
                        index,
                    ) by {
                    assert(in_ranges(before, index) <==> selected_up_to(
                        selectors@,
                        bounds@,
                        frame_count,
                        i as int,
                        index,
                    ));
                    if start <= index < end {
                        assert(range_start(selectors@[i as int], bounds@[i as int]) <= index);
                    }
                }
            }
            i = i + 1;
        }
        let (ranges, total): (Vec<Range<u64>>, u64) = merge_sorted(&sorted);
        let result = FrameSelection { ranges, frame_count: total };
        proof {
            assert forall|index: int|
                #![trigger in_ranges(result@.ranges, index)]
                in_ranges(result@.ranges, index) <==> selected(selectors@, bounds@, frame_count, index) by {
                assert(in_ranges(sorted@, index) <==> selected_up_to(
                    selectors@,
                    bounds@,
                    frame_count,
                    selectors@.len() as int,
                    index,
                ));
            }
        }
        result
    }

    /// The ranges of selected frames.
    pub fn ranges(&self) -> (result: &[Range<u64>])
        ensures
            result@ == self@.ranges,
    {
        self.ranges.as_slice()
    }

    /// How many frames are selected.
    pub fn frame_count(&self) -> (result: u64)
        ensures
            result == self@.frame_count,
    {
        self.frame_count
    }

    /// The first index of the first range.
    pub fn first_index(&self) -> (result: Option<u64>)
        ensures
            result == if self@.ranges.len() > 0 {
                Some(self@.ranges[0].start)
            } else {
                None
            },
    {
        if self.ranges.len() > 0 {
            Some(self.ranges[0].start)
        } else {
            None
        }
    }

    /// The index behind the last range.
    pub fn end_index(&self) -> (result: Option<u64>)
        ensures
            result == if self@.ranges.len() > 0 {
                Some(self@.ranges.last().end)
            } else {
                None
            },
    {
        if self.ranges.len() > 0 {
            Some(self.ranges[self.ranges.len() - 1].end)
        } else {
            None
        }
    }

    /// The index in the file of the selected frame at a position among the selected ones.
    pub fn index_at(&self, position: u64) -> (result: Option<u64>)
        requires
            self.valid(),
        ensures
            match result {
                Some(index) => position < self@.frame_count && indexes(self@.ranges)[position as int] == index,
                None => position >= self@.frame_count,
            },
    {
        let mut remaining: u64 = position;
        let mut i: usize = 0;
        assert(self@.ranges.take(0) == Seq::<Range<u64>>::empty());
        while i < self.ranges.len()
            invariant
                i <= self@.ranges.len(),
                self.valid(),
                self@.ranges == self.ranges@,
                remaining == position - total_length(self@.ranges.take(i as int)),
            decreases self@.ranges.len() - i,
        {
            let ghost taken = self@.ranges.take(i as int + 1);
            assert(taken.drop_last() == self@.ranges.take(i as int));
            let start: u64 = self.ranges[i].start;
            let length: u64 = self.ranges[i].end - start;
            if remaining < length {
                proof {
                    indexes_of_prefix(self@.ranges, i as int + 1);
                    indexes_match_length(self@.ranges.take(i as int));
                    indexes_match_length(self@.ranges);
                    indexes_match_length(taken);
                    assert(indexes(taken)[position as int] == start + remaining);
                }
                return Some(start + remaining);
            }
            remaining = remaining - length;
            i = i + 1;
        }
        assert(self@.ranges.take(i as int) == self@.ranges);
        None
    }
}

spec fn selected_up_to(
    selectors: Seq<KeySelector>,
    bounds: Seq<KeyBounds>,
    frame_count: u64,
    count: int,
    index: int,
) -> bool {
    exists|k: int|
        0 <= k < count && range_start(#[trigger] selectors[k], bounds[k]) <= index < range_end(
            selectors[k],
            bounds[k],
            frame_count,
        )
}

spec fn is_sorted(ranges: Seq<Range<u64>>) -> bool {
    &&& forall|k: int| 0 <= k < ranges.len() ==> (#[trigger] ranges[k]).start < ranges[k].end
    &&& forall|k: int, l: int|
        0 <= k < l < ranges.len() ==> (#[trigger] ranges[k]).start <= (#[trigger] ranges[l]).start
}

fn insert_sorted(ranges: &mut Vec<Range<u64>>, start: u64, end: u64)
    requires
        is_sorted(old(ranges)@),
        start < end,
    ensures
        is_sorted(final(ranges)@),
        forall|index: int|
            #![trigger in_ranges(final(ranges)@, index)]
            in_ranges(final(ranges)@, index) <==> in_ranges(old(ranges)@, index) || start <= index
                < end,
{
    let ghost before = ranges@;
    let mut place: usize = ranges.len();
    while place > 0 && ranges[place - 1].start > start
        invariant
            place <= ranges@.len(),
            ranges@ == before,
            is_sorted(before),
            forall|k: int| place <= k < before.len() ==> (#[trigger] before[k]).start > start,
        decreases place,
    {
        place = place - 1;
    }
    ranges.insert(place, start..end);
    proof {
        let after = ranges@;
        assert forall|index: int|
            #![trigger in_ranges(after, index)]
            in_ranges(after, index) <==> in_ranges(before, index) || start <= index < end by {
            if in_ranges(before, index) {
                let k = choose|k: int|
                    0 <= k < before.len() && in_range(#[trigger] before[k], index);
                let moved = if k < place { k } else { k + 1 };
                assert(after[moved] == before[k]);
                assert(in_range(after[moved], index));
            }
            if start <= index < end {
                assert(in_range(after[place as int], index));
            }
            if in_ranges(after, index) {
                let k = choose|k: int| 0 <= k < after.len() && in_range(#[trigger] after[k], index);
                if k < place {
                    assert(in_range(before[k], index));
                } else if k > place {
                    assert(in_range(before[k - 1], index));
                }
            }
        }
    }
}

/// Sorted ranges with those that overlap or touch made one, and how many frames they hold.
fn merge_sorted(sorted: &Vec<Range<u64>>) -> (result: (Vec<Range<u64>>, u64))
    requires
        is_sorted(sorted@),
    ensures
        is_canonical(result.0@),
        result.1 == total_length(result.0@),
        forall|index: int|
            #![trigger in_ranges(result.0@, index)]
            in_ranges(result.0@, index) <==> in_ranges(sorted@, index),
{
    let mut merged: Vec<Range<u64>> = Vec::new();
    let mut i: usize = 0;
    while i < sorted.len()
        invariant
            i <= sorted@.len(),
            is_sorted(sorted@),
            is_canonical(merged@),
            i == 0 ==> merged@.len() == 0,
            i > 0 ==> merged@.len() > 0 && merged@.last().start <= sorted@[i - 1].start,
            forall|index: int|
                #![trigger in_ranges(merged@, index)]
                in_ranges(merged@, index) <==> in_ranges(sorted@.take(i as int), index),
        decreases sorted@.len() - i,
    {
        let start: u64 = sorted[i].start;
        let end: u64 = sorted[i].end;
        let ghost before = merged@;
        let ghost taken = sorted@.take(i as int);
        let ghost next = sorted@.take(i as int + 1);
        let count: usize = merged.len();
        if count > 0 && start <= merged[count - 1].end {
            let last_start: u64 = merged[count - 1].start;
            let last_end: u64 = merged[count - 1].end;
            let reach: u64 = if end > last_end { end } else { last_end };
            merged.pop();
            merged.push(last_start..reach);
        } else {
            merged.push(start..end);
        }
        proof {
            assert forall|index: int|
                #![trigger in_ranges(merged@, index)]
                in_ranges(merged@, index) <==> in_ranges(next, index) by {
                assert(in_ranges(before, index) <==> in_ranges(taken, index));
                one_more_range(taken, next, index);
                if count > 0 && start <= before.last().end {
                    range_replaced(before, merged@, start, end, index);
                } else {
                    one_more_range(before, merged@, index);
                }
            }
        }
        i = i + 1;
    }
    assert(sorted@.take(i as int) == sorted@);
    let mut total: u64 = 0;
    let mut j: usize = 0;
    assert(merged@.take(0) == Seq::<Range<u64>>::empty());
    while j < merged.len()
        invariant
            j <= merged@.len(),
            is_canonical(merged@),
            total == total_length(merged@.take(j as int)),
            j > 0 ==> total <= merged@[j - 1].end,
            j == 0 ==> total == 0,
        decreases merged@.len() - j,
    {
        assert(merged@.take(j as int + 1).drop_last() == merged@.take(j as int));
        total = total + (merged[j].end - merged[j].start);
        j = j + 1;
    }
    assert(merged@.take(j as int) == merged@);
    (merged, total)
}

proof fn one_more_range(before: Seq<Range<u64>>, after: Seq<Range<u64>>, index: int)
    requires
        after.len() == before.len() + 1,
        forall|k: int| 0 <= k < before.len() ==> after[k] == before[k],
    ensures
        in_ranges(after, index) <==> in_ranges(before, index) || in_range(after.last(), index),
{
    if in_ranges(before, index) {
        let k = choose|k: int| 0 <= k < before.len() && in_range(#[trigger] before[k], index);
        assert(in_range(after[k], index));
    }
    if in_range(after.last(), index) {
        assert(in_range(after[after.len() - 1], index));
    }
    if in_ranges(after, index) {
        let k = choose|k: int| 0 <= k < after.len() && in_range(#[trigger] after[k], index);
        if k < before.len() {
            assert(in_range(before[k], index));
        }
    }
}

proof fn range_replaced(
    before: Seq<Range<u64>>,
    after: Seq<Range<u64>>,
    start: u64,
    end: u64,
    index: int,
)
    requires
        before.len() > 0,
        after.len() == before.len(),
        forall|k: int| 0 <= k < before.len() - 1 ==> after[k] == before[k],
        before.last().start <= start <= before.last().end,
        after.last().start == before.last().start,
        after.last().end == if end > before.last().end {
            end
        } else {
            before.last().end
        },
    ensures
        in_ranges(after, index) <==> in_ranges(before, index) || start <= index < end,
{
    let shorter = before.drop_last();
    one_more_range(shorter, before, index);
    one_more_range(shorter, after, index);
}

/// There are as many indexes in ranges as the ranges are long together.
pub proof fn indexes_match_length(ranges: Seq<Range<u64>>)
    requires
        forall|k: int| 0 <= k < ranges.len() ==> (#[trigger] ranges[k]).start <= ranges[k].end,
    ensures
        indexes(ranges).len() == total_length(ranges),
    decreases ranges.len(),
{
    if ranges.len() > 0 {
        indexes_match_length(ranges.drop_last());
    }
}

proof fn indexes_of_prefix(ranges: Seq<Range<u64>>, count: int)
    requires
        0 <= count <= ranges.len(),
    ensures
        indexes(ranges.take(count)).len() <= indexes(ranges).len(),
        forall|p: int|
            0 <= p < indexes(ranges.take(count)).len() ==> #[trigger] indexes(ranges)[p]
                == indexes(ranges.take(count))[p],
    decreases ranges.len() - count,
{
    if count < ranges.len() {
        indexes_of_prefix(ranges, count + 1);
        assert(ranges.take(count + 1).drop_last() == ranges.take(count));
    } else {
        assert(ranges.take(count) == ranges);
    }
}

/// Whether `lower` frames have a key below a rank, in a file whose keys are in order.
pub open spec fn is_lower_bound(ranks: Seq<int>, rank: int, lower: int) -> bool {
    &&& 0 <= lower <= ranks.len()
    &&& forall|i: int| 0 <= i < ranks.len() ==> (#[trigger] ranks[i] < rank <==> i < lower)
}

/// Whether `upper` frames have a key up to a rank, in a file whose keys are in order.
pub open spec fn is_upper_bound(ranks: Seq<int>, rank: int, upper: int) -> bool {
    &&& 0 <= upper <= ranks.len()
    &&& forall|i: int| 0 <= i < ranks.len() ==> (#[trigger] ranks[i] <= rank <==> i < upper)
}

/// Whether bounds say where the keys of a selector stand in a file.
pub open spec fn bounds_hold(ranks: Seq<int>, selector: KeySelector, bounds: KeyBounds) -> bool {
    match selector {
        KeySelector::All => true,
        KeySelector::Exact(key) => is_lower_bound(ranks, key.rank(), bounds.lower as int)
            && is_upper_bound(ranks, key.rank(), bounds.upper as int),
        KeySelector::From(key) => is_lower_bound(ranks, key.rank(), bounds.lower as int),
        KeySelector::Through(key) => is_upper_bound(ranks, key.rank(), bounds.upper as int),
        KeySelector::Between { first, last } => is_lower_bound(
            ranks,
            first.rank(),
            bounds.lower as int,
        ) && is_upper_bound(ranks, last.rank(), bounds.upper as int),
    }
}

/// A frame is selected exactly where one of the selectors selects its key, in whatever order and
/// how often the selectors are given; without selectors every frame is.
pub proof fn selection_is_the_union_of_selectors(
    ranks: Seq<int>,
    selectors: Seq<KeySelector>,
    bounds: Seq<KeyBounds>,
    frame_count: u64,
    index: int,
)
    requires
        ranks.len() == frame_count,
        selectors.len() == bounds.len(),
        forall|k: int| 0 <= k < selectors.len() ==> bounds_hold(ranks, #[trigger] selectors[k], bounds[k]),
        0 <= index < ranks.len(),
    ensures
        selected(selectors, bounds, frame_count, index) <==> selectors.len() == 0 || exists|k: int|
            0 <= k < selectors.len() && (#[trigger] selectors[k]).selects(ranks[index]),
{
    if selectors.len() > 0 {
        assert forall|k: int| 0 <= k < selectors.len() implies (range_start(
            #[trigger] selectors[k],
            bounds[k],
        ) <= index < range_end(selectors[k], bounds[k], frame_count) <==> selectors[k].selects(
            ranks[index],
        )) by {
            assert(bounds_hold(ranks, selectors[k], bounds[k]));
        }
        if selected(selectors, bounds, frame_count, index) {
            let k = choose|k: int|
                0 <= k < selectors.len() && range_start(#[trigger] selectors[k], bounds[k]) <= index
                    < range_end(selectors[k], bounds[k], frame_count);
            assert(selectors[k].selects(ranks[index]));
        }
        if exists|k: int|
            0 <= k < selectors.len() && (#[trigger] selectors[k]).selects(ranks[index]) {
            let k = choose|k: int|
                0 <= k < selectors.len() && (#[trigger] selectors[k]).selects(ranks[index]);
            assert(range_start(selectors[k], bounds[k]) <= index);
        }
    }
}

/// Ranges in order with gaps between them are told apart by the frames in them.
pub proof fn canonical_ranges_are_unique(left: Seq<Range<u64>>, right: Seq<Range<u64>>)
    requires
        is_canonical(left),
        is_canonical(right),
        forall|index: int| in_ranges(left, index) <==> in_ranges(right, index),
    ensures
        left.len() == right.len(),
        forall|k: int|
            0 <= k < left.len() ==> (#[trigger] left[k]).start == right[k].start && left[k].end
                == right[k].end,
    decreases left.len(),
{
    if left.len() == 0 {
        if right.len() > 0 {
            assert(in_range(right[0], right[0].start as int));
            assert(in_ranges(right, right[0].start as int));
            assert(in_ranges(left, right[0].start as int));
        }
    } else {
        let l = left.last();
        assert(in_range(left[left.len() - 1], l.end - 1));
        assert(in_ranges(left, l.end - 1));
        assert(in_ranges(right, l.end - 1));
        let r = right.last();
        last_range_decides(left, right);
        last_range_decides(right, left);
        assert(l.start == r.start && l.end == r.end);
        let a = left.drop_last();
        let b = right.drop_last();
        assert forall|index: int| in_ranges(a, index) <==> in_ranges(b, index) by {
            one_more_range(a, left, index);
            one_more_range(b, right, index);
            if in_ranges(a, index) {
                let k = choose|k: int| 0 <= k < a.len() && in_range(#[trigger] a[k], index);
                assert(left[k].end < left[left.len() - 1].start);
                assert(in_ranges(left, index));
                assert(in_ranges(right, index));
            }
            if in_ranges(b, index) {
                let k = choose|k: int| 0 <= k < b.len() && in_range(#[trigger] b[k], index);
                assert(right[k].end < right[right.len() - 1].start);
                assert(in_ranges(right, index));
                assert(in_ranges(left, index));
            }
        }
        canonical_ranges_are_unique(a, b);
        assert forall|k: int| 0 <= k < left.len() implies (#[trigger] left[k]).start
            == right[k].start && left[k].end == right[k].end by {
            if k < a.len() {
                assert(a[k] == left[k]);
                assert(b[k] == right[k]);
            }
        }
    }
}

/// The last of some ranges ends where the frames end, and starts behind the last gap.
proof fn last_range_decides(left: Seq<Range<u64>>, right: Seq<Range<u64>>)
    requires
        is_canonical(left),
        is_canonical(right),
        left.len() > 0,
        right.len() > 0,
        forall|index: int| in_ranges(left, index) <==> in_ranges(right, index),
    ensures
        left.last().end <= right.last().end,
        left.last().end == right.last().end ==> right.last().start <= left.last().start,
{
    let l = left[left.len() - 1];
    let r = right[right.len() - 1];
    assert(in_range(l, l.end - 1));
    assert(in_ranges(left, l.end - 1));
    let k = choose|k: int| 0 <= k < right.len() && in_range(#[trigger] right[k], l.end - 1);
    assert(right[k].end <= r.end);
    if l.end == r.end && l.start < r.start {
        let gap = r.start - 1;
        assert(in_range(l, gap));
        assert(in_ranges(left, gap));
        let m = choose|m: int| 0 <= m < right.len() && in_range(#[trigger] right[m], gap);
        assert(right[m].end <= gap + 1);
        if m < right.len() - 1 {
            assert(right[m].end < r.start);
        }
    }
}

proof fn dots_behind(head: Seq<char>, rest: Seq<char>)
    requires
        !head.contains('.'),
    ensures
        first_dots(head + ".."@ + rest) == head.len(),
        !has_dots(head),
    decreases head.len(),
{
    reveal_strlit("..");
    assert(".."@.len() == 2);
    let value = head + ".."@ + rest;
    if head.len() > 0 {
        let shorter = head.skip(1);
        assert(!shorter.contains('.')) by {
            if shorter.contains('.') {
                let i = choose|i: int| 0 <= i < shorter.len() && shorter[i] == '.';
                assert(head[i + 1] == '.');
            }
        }
        dots_behind(shorter, rest);
        assert(value.skip(1) == shorter + ".."@ + rest);
        assert(head.contains(head[0]));
        assert(value[0] == head[0]);
    }
}

proof fn key_texts_have_no_dots(key: Key)
    ensures
        !key::key_text(key).contains('.'),
        key::key_text(key).len() > 0,
{
    reveal_strlit("-");
    let text = key::key_text(key);
    let value = key.rank();
    let digits = number::decimal(if value < 0 { (-value) as nat } else { value as nat });
    number::decimal_is_digits(if value < 0 { (-value) as nat } else { value as nat });
    if text.contains('.') {
        let i = choose|i: int| 0 <= i < text.len() && text[i] == '.';
        if value < 0 {
            assert(i > 0);
            assert(number::is_digit(digits[i - 1]));
        } else {
            assert(number::is_digit(digits[i]));
        }
    }
}

/// A selector that is written down reads back: a key alone selects that key, with two dots behind
/// it all from it on, with two dots in front of it all through it, and two keys with two dots
/// between them all between the two, if they are the right way round.
pub proof fn selectors_read_back(first: Key, last: Key)
    requires
        first.kind().is_whole(),
        first.kind() == last.kind(),
    ensures
        ({
            let kind = first.kind();
            let one = key::key_text(first);
            let other = key::key_text(last);
            &&& selector_of(one, kind) == Ok::<KeySelector, Failure>(KeySelector::Exact(first))
            &&& selector_of(one + ".."@, kind) == Ok::<KeySelector, Failure>(
                KeySelector::From(first),
            )
            &&& selector_of(".."@ + one, kind) == Ok::<KeySelector, Failure>(
                KeySelector::Through(first),
            )
            &&& first.rank() <= last.rank() ==> selector_of(one + ".."@ + other, kind) == Ok::<
                KeySelector,
                Failure,
            >((KeySelector::Between { first, last }))
            &&& first.rank() > last.rank() ==> selector_of(one + ".."@ + other, kind) is Err
            &&& selector_of(".."@, kind) is Err
        }),
{
    reveal_strlit("..");
    assert(".."@.len() == 2);
    let one = key::key_text(first);
    let other = key::key_text(last);
    let nothing = Seq::<char>::empty();
    key_texts_have_no_dots(first);
    key_texts_have_no_dots(last);
    key::keys_read_back(first);
    key::keys_read_back(last);
    dots_behind(one, other);
    dots_behind(other, nothing);
    dots_behind(one, nothing);
    dots_behind(nothing, one);
    dots_behind(nothing, nothing);
    assert(one + ".."@ + nothing == one + ".."@);
    assert(nothing + ".."@ + one == ".."@ + one);
    assert(nothing + ".."@ + nothing == ".."@);
    let from = one + ".."@;
    assert(from.take(one.len() as int) == one);
    assert(from.skip(one.len() as int + 2) == nothing);
    let through = ".."@ + one;
    assert(through.take(0) == nothing);
    assert(through.skip(2) == one);
    let both = one + ".."@ + other;
    assert(both.take(one.len() as int) == one);
    assert(both.skip(one.len() as int + 2) == other);
    assert(".."@.take(0) == nothing);
    assert(".."@.skip(2) == nothing);
}

/// A selector from a key on and one through a key share exactly that key, and one between two keys
/// selects what is selected from the first on and through the last.
pub proof fn selectors_cut_at_their_keys(first: Key, last: Key, rank: int)
    ensures
        KeySelector::From(first).selects(rank) && KeySelector::Through(first).selects(rank) <==>
            KeySelector::Exact(first).selects(rank),
        KeySelector::From(first).selects(rank) || KeySelector::Through(first).selects(rank),
        KeySelector::Exact(first).selects(first.rank()),
        first.rank() < rank ==> KeySelector::From(first).selects(rank)
            && !KeySelector::Through(first).selects(rank),
        (KeySelector::Between { first, last }).selects(rank) <==> KeySelector::From(first).selects(
            rank,
        ) && KeySelector::Through(last).selects(rank),
        KeySelector::All.selects(rank),
{
}

/// A selector has two dots at one place: two dots again behind them are refused, whatever stands
/// around them.
pub proof fn dots_stand_once(first: Seq<char>, middle: Seq<char>, last: Seq<char>)
    requires
        !first.contains('.'),
        !middle.contains('.'),
    ensures
        selector_parts(first + ".."@ + (middle + ".."@ + last)) is Err,
{
    reveal_strlit("..");
    assert(".."@.len() == 2);
    let rest = middle + ".."@ + last;
    let value = first + ".."@ + rest;
    dots_behind(first, rest);
    dots_behind(middle, last);
    assert(value.skip(first.len() as int + 2) == rest);
}

} // verus!

//! Deletion of frames: which ranges can be deleted, what is kept of a page, and how the pages of a
//! v2 file move together behind a deletion.

use crate::error::{Error, Failure};
use crate::options;
use crate::options::{Codec, DeletionPacking, Encoding, PageOptions};
use crate::selection;
use std::ops::Range;
use vstd::prelude::*;
use vstd::slice::slice_subrange;

verus! {

/// Why ranges of frames cannot be deleted, if they cannot: they come in order, do not overlap, and
/// lie inside the file. The first range that is wrong is named.
pub open spec fn deletion_refusal(ranges: Seq<Range<u64>>, frame_count: u64) -> Option<Failure>
    decreases ranges.len(),
{
    if ranges.len() == 0 {
        None
    } else if let Some(failure) = deletion_refusal(ranges.drop_last(), frame_count) {
        Some(failure)
    } else {
        let range = ranges.last();
        let previous_end = if ranges.len() == 1 { 0 } else { ranges[ranges.len() - 2].end };
        if range.start < previous_end || range.start > range.end || range.end > frame_count {
            Some(
                Failure::InvalidFrameRange { start: range.start, end: range.end, frame_count },
            )
        } else {
            None
        }
    }
}

/// Ranges in order, without overlap, inside a file.
pub open spec fn are_deletable(ranges: Seq<Range<u64>>, frame_count: u64) -> bool {
    &&& forall|k: int|
        0 <= k < ranges.len() ==> (#[trigger] ranges[k]).start <= ranges[k].end <= frame_count
    &&& forall|k: int, l: int|
        0 <= k < l < ranges.len() ==> (#[trigger] ranges[k]).end <= (#[trigger] ranges[l]).start
}

/// Nothing is wrong with ranges exactly where they come in order, do not overlap and lie inside
/// the file.
pub proof fn refused_unless_deletable(ranges: Seq<Range<u64>>, frame_count: u64)
    ensures
        deletion_refusal(ranges, frame_count) is None <==> are_deletable(ranges, frame_count),
    decreases ranges.len(),
{
    if ranges.len() > 0 {
        let shorter = ranges.drop_last();
        refused_unless_deletable(shorter, frame_count);
        if are_deletable(ranges, frame_count) {
            assert forall|k: int| 0 <= k < shorter.len() implies (#[trigger] shorter[k]).start
                <= shorter[k].end <= frame_count by {
                assert(ranges[k] == shorter[k]);
            }
            assert forall|k: int, l: int| 0 <= k < l < shorter.len() implies (
            #[trigger] shorter[k]).end <= (#[trigger] shorter[l]).start by {
                assert(ranges[k] == shorter[k] && ranges[l] == shorter[l]);
            }
            if ranges.len() > 1 {
                assert(ranges[ranges.len() - 2].end <= ranges[ranges.len() - 1].start);
            }
        }
        if deletion_refusal(ranges, frame_count) is None {
            assert forall|k: int| 0 <= k < ranges.len() implies (#[trigger] ranges[k]).start
                <= ranges[k].end <= frame_count by {
                if k < shorter.len() {
                    assert(ranges[k] == shorter[k]);
                }
            }
            assert forall|k: int, l: int| 0 <= k < l < ranges.len() implies (
            #[trigger] ranges[k]).end <= (#[trigger] ranges[l]).start by {
                assert(ranges[k] == shorter[k]);
                if l < shorter.len() {
                    assert(ranges[l] == shorter[l]);
                } else {
                    let m = ranges.len() - 2;
                    assert(ranges[m] == shorter[m]);
                    if k < m {
                        assert(shorter[k].end <= shorter[m].start);
                    }
                }
            }
        }
    }
}

proof fn refusal_stays(ranges: Seq<Range<u64>>, frame_count: u64, count: int)
    requires
        0 <= count <= ranges.len(),
        deletion_refusal(ranges.take(count), frame_count) is Some,
    ensures
        deletion_refusal(ranges, frame_count) == deletion_refusal(ranges.take(count), frame_count),
    decreases ranges.len() - count,
{
    if count < ranges.len() {
        assert(ranges.take(count + 1).drop_last() == ranges.take(count));
        refusal_stays(ranges, frame_count, count + 1);
    } else {
        assert(ranges.take(count) == ranges);
    }
}

/// How many frames the ranges hold, or why they cannot be deleted.
pub fn validate_ranges(ranges: &[Range<u64>], frame_count: u64) -> (result: Result<u64, Error>)
    ensures
        match result {
            Ok(removed) => are_deletable(ranges@, frame_count) && removed
                == selection::total_length(ranges@) && removed <= frame_count,
            Err(error) => deletion_refusal(ranges@, frame_count) == Some(error@),
        },
{
    let mut previous_end: u64 = 0;
    let mut removed: u64 = 0;
    let mut i: usize = 0;
    assert(ranges@.take(0) == Seq::<Range<u64>>::empty());
    while i < ranges.len()
        invariant
            i <= ranges@.len(),
            deletion_refusal(ranges@.take(i as int), frame_count) is None,
            previous_end == if i == 0 {
                0
            } else {
                ranges@[i - 1].end
            },
            removed == selection::total_length(ranges@.take(i as int)),
            removed <= previous_end <= frame_count,
        decreases ranges@.len() - i,
    {
        let ghost taken = ranges@.take(i as int + 1);
        assert(taken.drop_last() == ranges@.take(i as int));
        let start: u64 = ranges[i].start;
        let end: u64 = ranges[i].end;
        if start < previous_end || start > end || end > frame_count {
            proof {
                assert(deletion_refusal(taken, frame_count) is Some);
                refusal_stays(ranges@, frame_count, i as int + 1);
            }
            return Err(Error::InvalidFrameRange { start, end, frame_count });
        }
        previous_end = end;
        removed = removed + (end - start);
        i = i + 1;
    }
    assert(ranges@.take(i as int) == ranges@);
    proof {
        refused_unless_deletable(ranges@, frame_count);
    }
    Ok(removed)
}

/// The frames in bytes, each of one length.
pub open spec fn frames_of(raw: Seq<u8>, frame_len: nat, count: nat) -> Seq<Seq<u8>> {
    Seq::new(count, |i: int| raw.subrange(i * frame_len, (i + 1) * frame_len))
}

/// The frames that stay once ranges are deleted, where the first of the frames has the index
/// `first`.
pub open spec fn kept(first: int, frames: Seq<Seq<u8>>, ranges: Seq<Range<u64>>) -> Seq<Seq<u8>>
    decreases frames.len(),
{
    if frames.len() == 0 {
        Seq::empty()
    } else {
        let before = kept(first, frames.drop_last(), ranges);
        if selection::in_ranges(ranges, first + frames.len() - 1) {
            before
        } else {
            before.push(frames.last())
        }
    }
}

/// Frames one behind the other.
pub open spec fn flattened(frames: Seq<Seq<u8>>) -> Seq<u8>
    decreases frames.len(),
{
    if frames.len() == 0 {
        Seq::empty()
    } else {
        flattened(frames.drop_last()) + frames.last()
    }
}

/// What stays of the frames of a page once ranges are deleted.
pub fn retained_frames(
    first_frame_index: u64,
    frame_count: u32,
    frame_len: usize,
    raw: &[u8],
    ranges: &[Range<u64>],
) -> (result: Vec<u8>)
    requires
        raw@.len() == frame_count * frame_len,
        first_frame_index + frame_count <= u64::MAX,
        forall|k: int| 0 <= k < ranges@.len() ==> (#[trigger] ranges@[k]).start <= ranges@[k].end,
        forall|k: int, l: int|
            0 <= k < l < ranges@.len() ==> (#[trigger] ranges@[k]).end <= (
            #[trigger] ranges@[l]).start,
    ensures
        result@ == flattened(
            kept(
                first_frame_index as int,
                frames_of(raw@, frame_len as nat, frame_count as nat),
                ranges@,
            ),
        ),
{
    let ghost frames = frames_of(raw@, frame_len as nat, frame_count as nat);
    let mut retained: Vec<u8> = Vec::new();
    let mut range_index: usize = 0;
    let mut local: u32 = 0;
    let mut offset: usize = 0;
    let total: usize = raw.len();
    assert(frames.take(0) == Seq::<Seq<u8>>::empty());
    while local < frame_count
        invariant
            local <= frame_count,
            total == raw@.len() == frame_count * frame_len,
            offset == local * frame_len,
            first_frame_index + frame_count <= u64::MAX,
            frames == frames_of(raw@, frame_len as nat, frame_count as nat),
            range_index <= ranges@.len(),
            forall|k: int|
                0 <= k < range_index ==> (#[trigger] ranges@[k]).end <= first_frame_index + local,
            forall|k: int|
                0 <= k < ranges@.len() ==> (#[trigger] ranges@[k]).start <= ranges@[k].end,
            forall|k: int, l: int|
                0 <= k < l < ranges@.len() ==> (#[trigger] ranges@[k]).end <= (
                #[trigger] ranges@[l]).start,
            retained@ == flattened(
                kept(first_frame_index as int, frames.take(local as int), ranges@),
            ),
        decreases frame_count - local,
    {
        let global: u64 = first_frame_index + local as u64;
        while range_index < ranges.len() && ranges[range_index].end <= global
            invariant
                range_index <= ranges@.len(),
                forall|k: int| 0 <= k < range_index ==> (#[trigger] ranges@[k]).end <= global,
            decreases ranges@.len() - range_index,
        {
            range_index = range_index + 1;
        }
        let deleted: bool = range_index < ranges.len() && ranges[range_index].start <= global;
        proof {
            if deleted {
                assert(selection::in_range(ranges@[range_index as int], global as int));
            }
            if selection::in_ranges(ranges@, global as int) {
                let k = choose|k: int|
                    0 <= k < ranges@.len() && selection::in_range(
                        #[trigger] ranges@[k],
                        global as int,
                    );
                if k > range_index {
                    assert(ranges@[range_index as int].end <= ranges@[k].start);
                }
            }
            assert(deleted == selection::in_ranges(ranges@, global as int));
            frame_bounds(local as int, frame_count as int, frame_len as int);
            assert(frames.take(local as int + 1).drop_last() == frames.take(local as int));
        }
        let next: usize = offset + frame_len;
        if !deleted {
            let frame: &[u8] = slice_subrange(raw, offset, next);
            let ghost before = retained@;
            let ghost stay = kept(first_frame_index as int, frames.take(local as int), ranges@);
            push_bytes(&mut retained, frame);
            assert(frame@ == frames[local as int]);
            assert(stay.push(frame@).drop_last() == stay);
            assert(retained@ == flattened(stay.push(frame@)));
        }
        offset = next;
        local = local + 1;
    }
    assert(frames.take(local as int) == frames);
    retained
}

proof fn frame_bounds(index: int, count: int, length: int)
    by (nonlinear_arith)
    requires
        0 <= index < count,
        length >= 0,
    ensures
        index * length + length == (index + 1) * length,
        0 <= index * length,
        (index + 1) * length <= count * length,
{
}

fn push_bytes(out: &mut Vec<u8>, bytes: &[u8])
    ensures
        final(out)@ == old(out)@ + bytes@,
{
    let ghost before = out@;
    let mut i: usize = 0;
    assert(out@ == before + bytes@.take(0));
    while i < bytes.len()
        invariant
            i <= bytes@.len(),
            out@ == before + bytes@.take(i as int),
        decreases bytes@.len() - i,
    {
        out.push(bytes[i]);
        i = i + 1;
        assert(out@ == before + bytes@.take(i as int));
    }
    assert(bytes@.take(i as int) == bytes@);
}

/// What is kept of frames is kept of each part of them.
pub proof fn kept_in_parts(
    first: int,
    head: Seq<Seq<u8>>,
    tail: Seq<Seq<u8>>,
    ranges: Seq<Range<u64>>,
)
    ensures
        kept(first, head + tail, ranges) == kept(first, head, ranges) + kept(
            first + head.len(),
            tail,
            ranges,
        ),
    decreases tail.len(),
{
    if tail.len() == 0 {
        assert(head + tail == head);
        assert(kept(first, head, ranges) + kept(first + head.len(), tail, ranges) == kept(
            first,
            head,
            ranges,
        ));
    } else {
        let shorter = tail.drop_last();
        kept_in_parts(first, head, shorter, ranges);
        assert((head + tail).drop_last() == head + shorter);
        let a = kept(first, head, ranges);
        let b = kept(first + head.len(), shorter, ranges);
        assert((a + b).push(tail.last()) == a + b.push(tail.last()));
    }
}

/// Frames outside the deleted ranges all stay.
pub proof fn kept_whole(first: int, frames: Seq<Seq<u8>>, ranges: Seq<Range<u64>>)
    requires
        forall|i: int|
            first <= i < first + frames.len() ==> !#[trigger] selection::in_ranges(ranges, i),
    ensures
        kept(first, frames, ranges) == frames,
    decreases frames.len(),
{
    if frames.len() > 0 {
        kept_whole(first, frames.drop_last(), ranges);
        assert(frames.drop_last().push(frames.last()) == frames);
    }
}

/// Only the pages between the first and the last deleted frame lose frames: the file without the
/// deleted frames is what lies in front of those pages, what stays of them, and what lies behind.
pub proof fn only_affected_pages_lose_frames(
    front: Seq<Seq<u8>>,
    affected: Seq<Seq<u8>>,
    back: Seq<Seq<u8>>,
    ranges: Seq<Range<u64>>,
)
    requires
        forall|k: int|
            0 <= k < ranges.len() ==> front.len() <= (#[trigger] ranges[k]).start && ranges[k].end
                <= front.len() + affected.len(),
    ensures
        kept(0, front + affected + back, ranges) == front + kept(
            front.len() as int,
            affected,
            ranges,
        ) + back,
{
    kept_in_parts(0, front + affected, back, ranges);
    kept_in_parts(0, front, affected, ranges);
    assert forall|i: int| 0 <= i < front.len() implies !#[trigger] selection::in_ranges(ranges, i) by {
    }
    kept_whole(0, front, ranges);
    let behind = (front.len() + affected.len()) as int;
    assert forall|i: int| behind <= i < behind + back.len() implies !#[trigger] selection::in_ranges(
        ranges,
        i,
    ) by {}
    kept_whole(behind, back, ranges);
}

/// As many frames go as the ranges hold.
pub proof fn deletion_removes_exactly_the_ranges(
    frames: Seq<Seq<u8>>,
    ranges: Seq<Range<u64>>,
    frame_count: u64,
)
    requires
        frames.len() == frame_count,
        are_deletable(ranges, frame_count),
    ensures
        kept(0, frames, ranges).len() == frames.len() - selection::total_length(ranges),
    decreases ranges.len(),
{
    if ranges.len() == 0 {
        assert forall|i: int| 0 <= i < frames.len() implies !#[trigger] selection::in_ranges(
            ranges,
            i,
        ) by {}
        kept_whole(0, frames, ranges);
    } else {
        let shorter = ranges.drop_last();
        let last = ranges.last();
        assert forall|k: int, l: int| 0 <= k < l < shorter.len() implies (
        #[trigger] shorter[k]).end <= (#[trigger] shorter[l]).start by {
            assert(ranges[k] == shorter[k] && ranges[l] == shorter[l]);
        }
        assert forall|k: int| 0 <= k < shorter.len() implies (#[trigger] shorter[k]).start
            <= shorter[k].end <= frame_count by {
            assert(ranges[k] == shorter[k]);
        }
        deletion_removes_exactly_the_ranges(frames, shorter, frame_count);
        let front = frames.take(last.start as int);
        let middle = frames.subrange(last.start as int, last.end as int);
        let back = frames.skip(last.end as int);
        assert(front + middle + back == frames);
        kept_in_parts(0, front + middle, back, ranges);
        kept_in_parts(0, front, middle, ranges);
        kept_in_parts(0, front + middle, back, shorter);
        kept_in_parts(0, front, middle, shorter);
        assert forall|i: int| 0 <= i < last.start implies selection::in_ranges(ranges, i)
            == #[trigger] selection::in_ranges(shorter, i) by {
            last_range_apart(ranges, i);
        }
        kept_alike(0, front, ranges, shorter);
        assert forall|i: int| last.start <= i < last.end implies #[trigger] selection::in_ranges(
            ranges,
            i,
        ) by {
            last_range_apart(ranges, i);
        }
        kept_nothing(last.start as int, middle, ranges);
        assert forall|i: int| last.start <= i < frames.len() implies !#[trigger] selection::in_ranges(
            shorter,
            i,
        ) by {
            if selection::in_ranges(shorter, i) {
                let k = choose|k: int|
                    0 <= k < shorter.len() && selection::in_range(#[trigger] shorter[k], i);
                assert(ranges[k].end <= ranges[ranges.len() - 1].start);
            }
        }
        kept_whole(last.start as int, middle, shorter);
        kept_whole(last.end as int, back, shorter);
        assert forall|i: int| last.end <= i < frames.len() implies !#[trigger] selection::in_ranges(
            ranges,
            i,
        ) by {
            last_range_apart(ranges, i);
            assert(!selection::in_ranges(shorter, i));
        }
        kept_whole(last.end as int, back, ranges);
    }
}

/// The first frame of a page behind all deleted ranges moves forward by as many frames as go.
pub proof fn frames_behind_move_forward(
    frames: Seq<Seq<u8>>,
    ranges: Seq<Range<u64>>,
    first_frame_index: u64,
)
    requires
        first_frame_index <= frames.len(),
        are_deletable(ranges, first_frame_index),
    ensures
        kept(0, frames.take(first_frame_index as int), ranges).len() == first_frame_index
            - selection::total_length(ranges),
        kept(0, frames, ranges) == kept(0, frames.take(first_frame_index as int), ranges)
            + frames.skip(first_frame_index as int),
{
    let front = frames.take(first_frame_index as int);
    let back = frames.skip(first_frame_index as int);
    deletion_removes_exactly_the_ranges(front, ranges, first_frame_index);
    assert(front + back == frames);
    kept_in_parts(0, front, back, ranges);
    assert forall|i: int|
        first_frame_index <= i < first_frame_index + back.len() implies !#[trigger] selection::in_ranges(
        ranges,
        i,
    ) by {}
    kept_whole(first_frame_index as int, back, ranges);
}

proof fn last_range_apart(ranges: Seq<Range<u64>>, index: int)
    requires
        ranges.len() > 0,
    ensures
        selection::in_ranges(ranges, index) <==> selection::in_ranges(ranges.drop_last(), index)
            || selection::in_range(ranges.last(), index),
{
    let shorter = ranges.drop_last();
    if selection::in_ranges(shorter, index) {
        let k = choose|k: int|
            0 <= k < shorter.len() && selection::in_range(#[trigger] shorter[k], index);
        assert(selection::in_range(ranges[k], index));
    }
    if selection::in_range(ranges.last(), index) {
        assert(selection::in_range(ranges[ranges.len() - 1], index));
    }
    if selection::in_ranges(ranges, index) {
        let k = choose|k: int|
            0 <= k < ranges.len() && selection::in_range(#[trigger] ranges[k], index);
        if k < shorter.len() {
            assert(selection::in_range(shorter[k], index));
        }
    }
}

proof fn kept_alike(
    first: int,
    frames: Seq<Seq<u8>>,
    one: Seq<Range<u64>>,
    other: Seq<Range<u64>>,
)
    requires
        forall|i: int|
            first <= i < first + frames.len() ==> selection::in_ranges(one, i)
                == #[trigger] selection::in_ranges(other, i),
    ensures
        kept(first, frames, one) == kept(first, frames, other),
    decreases frames.len(),
{
    if frames.len() > 0 {
        kept_alike(first, frames.drop_last(), one, other);
        assert(selection::in_ranges(one, first + frames.len() - 1) == selection::in_ranges(
            other,
            first + frames.len() - 1,
        ));
    }
}

proof fn kept_nothing(first: int, frames: Seq<Seq<u8>>, ranges: Seq<Range<u64>>)
    requires
        forall|i: int|
            first <= i < first + frames.len() ==> #[trigger] selection::in_ranges(ranges, i),
    ensures
        kept(first, frames, ranges).len() == 0,
    decreases frames.len(),
{
    if frames.len() > 0 {
        kept_nothing(first, frames.drop_last(), ranges);
        assert(selection::in_ranges(ranges, first + frames.len() - 1));
    }
}

/// What a v2 file looks like to a deletion.
#[derive(Debug, Clone, Copy, PartialEq, Eq, Structural)]
pub struct PagedFile {
    pub page_count: u64,
    pub page_size: u32,
    pub frame_count: u64,
}

/// A deletion in a v2 file: the pages that are written anew.
#[derive(Debug, Clone, Copy, PartialEq, Eq, Structural)]
pub struct PageDeletion {
    pub file: PagedFile,
    pub removed: u64,
    /// The page of the first deleted frame.
    pub start_page: u64,
    /// The last page that is written anew.
    pub end_page: u64,
    /// The index of the first frame of the first page that is written anew.
    pub first_frame_index: u64,
}

/// What to do once the pages of a deletion have been written anew.
#[derive(Debug, Clone, Copy, PartialEq, Eq, Structural)]
pub enum PageStep {
    /// They do not fit into the place of the old ones: write one page more anew.
    Extend(PageDeletion),
    /// They take the place of the old ones.
    Replace,
}

impl PageDeletion {
    /// Pages and frames inside the file.
    pub open spec fn valid(self) -> bool {
        &&& self.start_page <= self.end_page < self.file.page_count
        &&& self.first_frame_index <= self.file.frame_count
        &&& self.removed <= self.file.frame_count
    }

    /// How many pages are written anew.
    pub open spec fn consumed(self) -> int {
        self.end_page - self.start_page + 1
    }

    /// Whether `pages` new pages can take the place of the old ones: there are not more of them, or
    /// nothing lies behind the old ones.
    pub open spec fn fits(self, pages: u64) -> bool {
        pages <= self.consumed() || self.end_page + 1 == self.file.page_count
    }

    /// The page that a page behind the deletion moves to.
    pub open spec fn moved_to(self, source_page: u64, pages: u64) -> int {
        self.start_page + pages + (source_page - (self.end_page + 1))
    }

    /// How many pages the file has after the deletion.
    pub open spec fn pages_after(self, pages: u64) -> int {
        self.file.page_count - self.consumed() + pages
    }

    /// A deletion that packs as little as it must or as much as it can.
    pub fn begin(
        file: PagedFile,
        removed: u64,
        start_page: u64,
        last_affected_page: u64,
        first_frame_index: u64,
        packing: DeletionPacking,
    ) -> (result: Self)
        requires
            start_page <= last_affected_page < file.page_count,
            first_frame_index <= file.frame_count,
            removed <= file.frame_count,
        ensures
            result.valid(),
            result == (PageDeletion {
                file,
                removed,
                start_page,
                end_page: match packing {
                    DeletionPacking::LocalRepack => last_affected_page,
                    DeletionPacking::RepackToEnd => (file.page_count - 1) as u64,
                },
                first_frame_index,
            }),
    {
        let end_page: u64 = match packing {
            DeletionPacking::LocalRepack => last_affected_page,
            DeletionPacking::RepackToEnd => file.page_count - 1,
        };
        PageDeletion { file, removed, start_page, end_page, first_frame_index }
    }

    /// What to do once `pages` pages have been written anew.
    pub fn step(self, pages: u64) -> (result: PageStep)
        requires
            self.valid(),
        ensures
            result == if self.fits(pages) {
                PageStep::Replace
            } else {
                PageStep::Extend(PageDeletion { end_page: (self.end_page + 1) as u64, ..self })
            },
            result matches PageStep::Extend(next) ==> next.valid(),
    {
        let consumed: u64 = self.end_page - self.start_page;
        if pages <= consumed || pages - 1 <= consumed || self.end_page + 1 == self.file.page_count {
            PageStep::Replace
        } else {
            let mut next: PageDeletion = self;
            next.end_page = self.end_page + 1;
            PageStep::Extend(next)
        }
    }

    /// The page that a new page is written to, and the index of its first frame in the file, given
    /// the index of that frame among the new pages.
    pub fn replacement(self, index: u64, local_first_frame_index: u64) -> (result: (u64, u64))
        requires
            self.valid(),
            self.start_page + index <= u64::MAX,
            self.first_frame_index + local_first_frame_index <= u64::MAX,
        ensures
            result.0 == self.start_page + index,
            result.1 == self.first_frame_index + local_first_frame_index,
    {
        (self.start_page + index, self.first_frame_index + local_first_frame_index)
    }

    /// The page that a page behind the deletion moves to, and the new index of its first frame.
    pub fn relocation(self, source_page: u64, pages: u64, first_frame_index: u64) -> (result: (
        u64,
        u64,
    ))
        requires
            self.valid(),
            self.end_page < source_page < self.file.page_count,
            self.fits(pages),
            self.removed <= first_frame_index,
        ensures
            result.0 == self.moved_to(source_page, pages),
            result.1 == first_frame_index - self.removed,
    {
        let consumed: u64 = self.end_page - self.start_page + 1;
        (source_page - (consumed - pages), first_frame_index - self.removed)
    }

    /// How many pages and frames the file has after the deletion, and how long it is, given the
    /// length of its header.
    pub fn outcome(self, pages: u64, header_len: u64) -> (result: (u64, u64, u64))
        requires
            self.valid(),
            self.fits(pages),
            header_len + self.pages_after(pages) * self.file.page_size <= u64::MAX,
            self.pages_after(pages) <= u64::MAX,
        ensures
            result.0 == self.pages_after(pages),
            result.1 == self.file.frame_count - self.removed,
            result.2 == header_len + self.pages_after(pages) * self.file.page_size,
    {
        let consumed: u64 = self.end_page - self.start_page + 1;
        let page_count: u64 = self.file.page_count - consumed + pages;
        assert(0 <= page_count * self.file.page_size) by (nonlinear_arith)
            requires
                page_count >= 0,
                self.file.page_size >= 0,
        ;
        (
            page_count,
            self.file.frame_count - self.removed,
            header_len + page_count * self.file.page_size as u64,
        )
    }
}

/// Pages behind a deletion move to the front or stay, one right behind the other and right behind
/// the new pages: moving them in their order never overwrites a page that has not been moved yet.
pub proof fn relocation_is_safe(deletion: PageDeletion, pages: u64, source_page: u64)
    requires
        deletion.valid(),
        deletion.fits(pages),
        deletion.end_page < source_page < deletion.file.page_count,
    ensures
        deletion.moved_to(source_page, pages) <= source_page,
        deletion.moved_to((deletion.end_page + 1) as u64, pages) == deletion.start_page + pages,
        forall|later: u64|
            source_page < later < deletion.file.page_count ==> deletion.moved_to(source_page, pages)
                < #[trigger] deletion.moved_to(later, pages),
        deletion.moved_to(source_page, pages) < deletion.pages_after(pages),
{
}

/// A deletion comes to an end: it takes in one page more each time, and the whole rest of the file
/// always fits.
pub proof fn deletion_ends(deletion: PageDeletion, pages: u64)
    requires
        deletion.valid(),
        !deletion.fits(pages),
    ensures
        deletion.end_page + 1 < deletion.file.page_count,
{
}

/// The options that the pages of a deletion are written with: those that were asked for, or else
/// those of the first affected page; always with the page size of the file, and with a last page
/// that is compressed though it is not full where only some pages are packed anew.
pub open spec fn deletion_options(
    asked: Option<PageOptions>,
    packing: DeletionPacking,
    page_size: u32,
    codec: Codec,
    encoding: Encoding,
) -> PageOptions {
    let base = match asked {
        Some(options) => options,
        None => options::fixed_to_page(options::default_page_options(), codec, encoding),
    };
    PageOptions {
        page_size,
        compress_partial_page: base.compress_partial_page || packing
            == DeletionPacking::LocalRepack,
        ..base
    }
}

/// The options that the pages of a deletion are written with.
pub fn page_options(
    asked: Option<PageOptions>,
    packing: DeletionPacking,
    page_size: u32,
    codec: Codec,
    encoding: Encoding,
) -> (result: PageOptions)
    ensures
        result == deletion_options(asked, packing, page_size, codec, encoding),
{
    let mut result: PageOptions = match asked {
        Some(options) => options,
        None => PageOptions::new().fixed_to(codec, encoding),
    };
    result.page_size = page_size;
    if packing == DeletionPacking::LocalRepack {
        result.compress_partial_page = true;
    }
    result
}

/// New pages can take the place of the old ones exactly if they overwrite no page behind those, and
/// the file is then the pages in front, the new ones and those behind.
pub proof fn new_pages_overwrite_nothing_behind(deletion: PageDeletion, pages: u64)
    requires
        deletion.valid(),
    ensures
        deletion.fits(pages) <==> forall|page: u64|
            deletion.end_page < page < deletion.file.page_count ==> deletion.start_page + pages
                <= #[trigger] page_place(page),
        deletion.pages_after(pages) == deletion.start_page + pages + (deletion.file.page_count
            - deletion.end_page - 1),
{
    if !deletion.fits(pages) {
        let next = (deletion.end_page + 1) as u64;
        assert(page_place(next) == next);
    }
}

/// The place of a page in its file.
pub open spec fn page_place(page: u64) -> int {
    page as int
}

/// The pages of a deletion keep the size of the pages of the file. What was asked for holds for them;
/// where nothing was, they are written as the first affected page was. Where only some pages are
/// packed anew, the last of them is compressed in any case, and else only if that was asked for.
pub proof fn deletions_keep_the_page_size(
    asked: Option<PageOptions>,
    packing: DeletionPacking,
    page_size: u32,
    codec: Codec,
    encoding: Encoding,
)
    ensures
        ({
            let written = deletion_options(asked, packing, page_size, codec, encoding);
            &&& written.page_size == page_size
            &&& asked matches Some(options) ==> written.codec == options.codec
                && written.codec_selection == options.codec_selection && written.zstd_level
                == options.zstd_level && written.encoding == options.encoding
                && written.encoding_selection == options.encoding_selection && written.page_packing
                == options.page_packing
            &&& asked is None ==> written.codec_selection == options::CodecSelection::Fixed(codec)
                && written.encoding_selection == options::EncodingSelection::Fixed(encoding)
                && written.codec == codec && written.encoding == encoding
            &&& packing == DeletionPacking::LocalRepack ==> written.compress_partial_page
            &&& packing == DeletionPacking::RepackToEnd ==> (written.compress_partial_page <==> (
            asked is Some && asked->0.compress_partial_page))
        }),
{
}

/// The frames of a page are its bytes: one behind the other they are the bytes again.
pub proof fn frames_are_their_bytes(raw: Seq<u8>, frame_len: nat, count: nat)
    requires
        raw.len() == count * frame_len,
    ensures
        flattened(frames_of(raw, frame_len, count)) == raw,
    decreases count,
{
    let frames = frames_of(raw, frame_len, count);
    if count == 0 {
        assert(raw == Seq::<u8>::empty()) by {
            assert(count * frame_len == 0) by (nonlinear_arith)
                requires
                    count == 0,
            ;
        }
    } else {
        let less = (count - 1) as nat;
        assert(less * frame_len + frame_len == count * frame_len) by (nonlinear_arith)
            requires
                less + 1 == count,
        ;
        assert(0 <= less * frame_len) by (nonlinear_arith);
        let front = raw.take((less * frame_len) as int);
        frames_are_their_bytes(front, frame_len, less);
        let shorter = frames_of(front, frame_len, less);
        assert forall|i: int| 0 <= i < less implies frames[i] == shorter[i] by {
            assert((i + 1) * frame_len <= less * frame_len) by (nonlinear_arith)
                requires
                    i + 1 <= less,
            ;
            assert(0 <= i * frame_len <= (i + 1) * frame_len) by (nonlinear_arith)
                requires
                    0 <= i,
            ;
            assert(raw.subrange(i * frame_len, (i + 1) * frame_len) == front.subrange(
                i * frame_len,
                (i + 1) * frame_len,
            ));
        }
        assert(frames.drop_last() == shorter);
        assert((less as int + 1) * frame_len == raw.len());
        assert(front + frames.last() == raw);
    }
}

/// A frame goes exactly if its index lies in a range, and the frames that stay keep their order: with
/// the frames in front of an index deleted, those from it on stay, and with those from it on deleted,
/// those in front of it.
pub proof fn deleting_cuts_at_the_index(frames: Seq<Seq<u8>>, index: u64)
    requires
        index <= frames.len() <= u64::MAX,
    ensures
        kept(0, frames, seq![(Range { start: 0u64, end: index })]) == frames.skip(index as int),
        kept(0, frames, seq![(Range { start: index, end: frames.len() as u64 })]) == frames.take(
            index as int,
        ),
{
    let front = frames.take(index as int);
    let back = frames.skip(index as int);
    assert(frames == front + back);
    let first = seq![Range { start: 0u64, end: index }];
    let last = seq![Range { start: index, end: frames.len() as u64 }];
    kept_in_parts(0, front, back, first);
    kept_in_parts(0, front, back, last);
    assert forall|i: int| 0 <= i < index implies #[trigger] selection::in_ranges(first, i) by {
        assert(selection::in_range(first[0], i));
    }
    assert forall|i: int| index <= i < frames.len() implies #[trigger] selection::in_ranges(
        last,
        i,
    ) by {
        assert(selection::in_range(last[0], i));
    }
    all_go(0, front, first);
    kept_whole(index as int, back, first);
    kept_whole(0, front, last);
    all_go(index as int, back, last);
}

proof fn all_go(first: int, frames: Seq<Seq<u8>>, ranges: Seq<Range<u64>>)
    requires
        forall|i: int|
            first <= i < first + frames.len() ==> #[trigger] selection::in_ranges(ranges, i),
    ensures
        kept(first, frames, ranges) == Seq::<Seq<u8>>::empty(),
    decreases frames.len(),
{
    if frames.len() > 0 {
        all_go(first, frames.drop_last(), ranges);
        assert(selection::in_ranges(ranges, first + frames.len() - 1));
    }
}

} // verus!

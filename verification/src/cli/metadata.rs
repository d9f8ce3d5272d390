//! What a v2 file takes up, counted over its pages.

use crate::key::Key;
use crate::options::{Codec, Encoding, PAGE_HEADER_LEN};
use vstd::prelude::*;

verus! {

/// What the header of a v2 page says.
#[derive(Debug, Clone, Copy, PartialEq, Eq, Structural)]
pub struct PageFacts {
    pub frame_count: u32,
    pub compressed_len: u32,
    pub uncompressed_len: u32,
    pub first_key: Key,
    pub last_key: Key,
    pub codec: Codec,
    pub encoding: Encoding,
}

/// What a v2 file, or several of them together, takes up.
#[derive(Debug, Clone, Copy, PartialEq, Eq, Structural)]
pub struct V2Metadata {
    pub frame_count: u64,
    pub page_count: u64,
    pub physical_bytes: u64,
    pub expected_physical_bytes: u64,
    pub payload_capacity_per_page: u64,
    pub payload_capacity_total: u64,
    pub compressed_total: u64,
    pub uncompressed_total: u64,
    pub padding_bytes: u64,
    pub min_frames: u32,
    pub max_frames: u32,
    pub first_key: Option<Key>,
    pub last_key: Option<Key>,
    pub codec_none_pages: u64,
    pub codec_zstd_pages: u64,
    pub codec_lz4_pages: u64,
    pub compressed_page_frames: u64,
    pub encoding_row_raw_v1_pages: u64,
    pub encoding_columnar_basic_v1_pages: u64,
    pub encoding_columnar_delta_v1_pages: u64,
}

/// How much room for frames a page of the given size has.
pub open spec fn payload_capacity(page_size: u32) -> u64 {
    if page_size < PAGE_HEADER_LEN {
        0
    } else {
        (page_size - PAGE_HEADER_LEN) as u64
    }
}

/// A measure of pages, added up over all of them.
pub open spec fn total(pages: Seq<PageFacts>, measure: spec_fn(PageFacts) -> nat) -> nat
    decreases pages.len(),
{
    if pages.len() == 0 {
        0
    } else {
        total(pages.drop_last(), measure) + measure(pages.last())
    }
}

/// The bytes that the frames of the pages take up once compressed.
pub open spec fn compressed_bytes(pages: Seq<PageFacts>) -> nat {
    total(pages, |page: PageFacts| page.compressed_len as nat)
}

/// The bytes that the frames of the pages take up before compression.
pub open spec fn uncompressed_bytes(pages: Seq<PageFacts>) -> nat {
    total(pages, |page: PageFacts| page.uncompressed_len as nat)
}

/// How many pages have a codec.
pub open spec fn codec_pages(pages: Seq<PageFacts>, codec: Codec) -> nat {
    total(
        pages,
        |page: PageFacts|
            if page.codec == codec {
                1nat
            } else {
                0nat
            },
    )
}

/// How many pages have an encoding.
pub open spec fn encoding_pages(pages: Seq<PageFacts>, encoding: Encoding) -> nat {
    total(
        pages,
        |page: PageFacts|
            if page.encoding == encoding {
                1nat
            } else {
                0nat
            },
    )
}

/// How many frames the compressed pages hold.
pub open spec fn compressed_frames(pages: Seq<PageFacts>) -> nat {
    total(
        pages,
        |page: PageFacts|
            if page.codec == Codec::Uncompressed {
                0nat
            } else {
                page.frame_count as nat
            },
    )
}

/// The fewest frames that a page holds; the largest number where there is no page.
pub open spec fn fewest_frames(pages: Seq<PageFacts>) -> u32
    decreases pages.len(),
{
    if pages.len() == 0 {
        u32::MAX
    } else if pages.last().frame_count < fewest_frames(pages.drop_last()) {
        pages.last().frame_count
    } else {
        fewest_frames(pages.drop_last())
    }
}

/// The most frames that a page holds; zero where there is no page.
pub open spec fn most_frames(pages: Seq<PageFacts>) -> u32
    decreases pages.len(),
{
    if pages.len() == 0 {
        0
    } else if pages.last().frame_count > most_frames(pages.drop_last()) {
        pages.last().frame_count
    } else {
        most_frames(pages.drop_last())
    }
}

/// What a v2 file takes up.
pub open spec fn metadata_of(
    pages: Seq<PageFacts>,
    frame_count: u64,
    page_size: u32,
    file_header_len: u64,
    physical_bytes: u64,
) -> V2Metadata {
    let capacity = payload_capacity(page_size);
    let capacity_total = pages.len() * capacity;
    V2Metadata {
        frame_count,
        page_count: pages.len() as u64,
        physical_bytes,
        expected_physical_bytes: (file_header_len + pages.len() * page_size) as u64,
        payload_capacity_per_page: capacity,
        payload_capacity_total: capacity_total as u64,
        compressed_total: compressed_bytes(pages) as u64,
        uncompressed_total: uncompressed_bytes(pages) as u64,
        padding_bytes: if compressed_bytes(pages) > capacity_total {
            0
        } else {
            (capacity_total - compressed_bytes(pages)) as u64
        },
        min_frames: fewest_frames(pages),
        max_frames: most_frames(pages),
        first_key: if pages.len() == 0 {
            None
        } else {
            Some(pages.first().first_key)
        },
        last_key: if pages.len() == 0 {
            None
        } else {
            Some(pages.last().last_key)
        },
        codec_none_pages: codec_pages(pages, Codec::Uncompressed) as u64,
        codec_zstd_pages: codec_pages(pages, Codec::Zstd) as u64,
        codec_lz4_pages: codec_pages(pages, Codec::Lz4) as u64,
        compressed_page_frames: compressed_frames(pages) as u64,
        encoding_row_raw_v1_pages: encoding_pages(pages, Encoding::RowRawV1) as u64,
        encoding_columnar_basic_v1_pages: encoding_pages(pages, Encoding::ColumnarBasicV1) as u64,
        encoding_columnar_delta_v1_pages: encoding_pages(pages, Encoding::ColumnarDeltaV1) as u64,
    }
}

/// Whether everything that is counted of a v2 file fits the counters.
pub open spec fn countable(pages: Seq<PageFacts>, page_size: u32, file_header_len: u64) -> bool {
    &&& file_header_len + pages.len() * page_size <= u64::MAX
    &&& compressed_bytes(pages) <= u64::MAX
    &&& uncompressed_bytes(pages) <= u64::MAX
    &&& compressed_frames(pages) <= u64::MAX
}

proof fn total_step(pages: Seq<PageFacts>, count: int, measure: spec_fn(PageFacts) -> nat)
    requires
        0 <= count < pages.len(),
    ensures
        total(pages.take(count + 1), measure) == total(pages.take(count), measure) + measure(
            pages[count],
        ),
        total(pages.take(count + 1), measure) <= total(pages, measure),
{
    assert(pages.take(count + 1).drop_last() == pages.take(count));
    total_grows(pages, count + 1, measure);
}

proof fn total_grows(pages: Seq<PageFacts>, count: int, measure: spec_fn(PageFacts) -> nat)
    requires
        0 <= count <= pages.len(),
    ensures
        total(pages.take(count), measure) <= total(pages, measure),
    decreases pages.len() - count,
{
    if count < pages.len() {
        total_grows(pages, count + 1, measure);
        assert(pages.take(count + 1).drop_last() == pages.take(count));
    } else {
        assert(pages.take(count) == pages);
    }
}

/// Every page has one codec and one encoding: the pages counted by codec are all pages, and so are
/// the pages counted by encoding.
pub proof fn pages_are_counted_once(pages: Seq<PageFacts>)
    ensures
        codec_pages(pages, Codec::Uncompressed) + codec_pages(pages, Codec::Zstd) + codec_pages(
            pages,
            Codec::Lz4,
        ) == pages.len(),
        encoding_pages(pages, Encoding::RowRawV1) + encoding_pages(pages, Encoding::ColumnarBasicV1)
            + encoding_pages(pages, Encoding::ColumnarDeltaV1) == pages.len(),
    decreases pages.len(),
{
    if pages.len() > 0 {
        pages_are_counted_once(pages.drop_last());
    }
}

/// What a v2 file takes up, from what the headers of its pages say.
pub fn collect_v2_metadata(
    pages: &[PageFacts],
    frame_count: u64,
    page_size: u32,
    file_header_len: u64,
    physical_bytes: u64,
) -> (result: V2Metadata)
    requires
        countable(pages@, page_size, file_header_len),
    ensures
        result == metadata_of(pages@, frame_count, page_size, file_header_len, physical_bytes),
{
    let page_count: u64 = pages.len() as u64;
    let capacity: u64 = if page_size < PAGE_HEADER_LEN {
        0
    } else {
        (page_size - PAGE_HEADER_LEN) as u64
    };
    proof {
        assert(page_count * capacity <= page_count * page_size) by (nonlinear_arith)
            requires
                capacity <= page_size,
        ;
    }
    let capacity_total: u64 = page_count * capacity;
    let mut metadata: V2Metadata = V2Metadata {
        frame_count,
        page_count,
        physical_bytes,
        expected_physical_bytes: file_header_len + page_count * page_size as u64,
        payload_capacity_per_page: capacity,
        payload_capacity_total: capacity_total,
        compressed_total: 0,
        uncompressed_total: 0,
        padding_bytes: 0,
        min_frames: u32::MAX,
        max_frames: 0,
        first_key: None,
        last_key: None,
        codec_none_pages: 0,
        codec_zstd_pages: 0,
        codec_lz4_pages: 0,
        compressed_page_frames: 0,
        encoding_row_raw_v1_pages: 0,
        encoding_columnar_basic_v1_pages: 0,
        encoding_columnar_delta_v1_pages: 0,
    };
    let ghost started = metadata;
    let mut i: usize = 0;
    assert(pages@.take(0) == Seq::<PageFacts>::empty());
    while i < pages.len()
        invariant
            i <= pages@.len() == page_count,
            countable(pages@, page_size, file_header_len),
            metadata == counted(started, pages@.take(i as int)),
            i == 0 ==> metadata.first_key is None,
            within_limits(pages@.take(i as int)),
        decreases pages@.len() - i,
    {
        let page: PageFacts = pages[i];
        proof {
            counting_step(pages@, i as int, page_size, file_header_len);
            assert(pages@.take(i as int + 1).last() == page);
            assert(pages@.take(i as int + 1).drop_last() == pages@.take(i as int));
            if i > 0 {
                assert(pages@.take(i as int + 1).first() == pages@.take(i as int).first());
            }
        }
        metadata.compressed_total = metadata.compressed_total + page.compressed_len as u64;
        metadata.uncompressed_total = metadata.uncompressed_total + page.uncompressed_len as u64;
        if page.frame_count < metadata.min_frames {
            metadata.min_frames = page.frame_count;
        }
        if page.frame_count > metadata.max_frames {
            metadata.max_frames = page.frame_count;
        }
        if metadata.first_key.is_none() {
            metadata.first_key = Some(page.first_key);
        }
        metadata.last_key = Some(page.last_key);
        match page.codec {
            Codec::Uncompressed => {
                metadata.codec_none_pages = metadata.codec_none_pages + 1;
            },
            Codec::Zstd => {
                metadata.codec_zstd_pages = metadata.codec_zstd_pages + 1;
                metadata.compressed_page_frames = metadata.compressed_page_frames
                    + page.frame_count as u64;
            },
            Codec::Lz4 => {
                metadata.codec_lz4_pages = metadata.codec_lz4_pages + 1;
                metadata.compressed_page_frames = metadata.compressed_page_frames
                    + page.frame_count as u64;
            },
        }
        match page.encoding {
            Encoding::RowRawV1 => {
                metadata.encoding_row_raw_v1_pages = metadata.encoding_row_raw_v1_pages + 1;
            },
            Encoding::ColumnarBasicV1 => {
                metadata.encoding_columnar_basic_v1_pages =
                metadata.encoding_columnar_basic_v1_pages + 1;
            },
            Encoding::ColumnarDeltaV1 => {
                metadata.encoding_columnar_delta_v1_pages =
                metadata.encoding_columnar_delta_v1_pages + 1;
            },
        }
        i = i + 1;
    }
    assert(pages@.take(i as int) == pages@);
    metadata.padding_bytes =
    if metadata.compressed_total > capacity_total {
        0
    } else {
        capacity_total - metadata.compressed_total
    };
    metadata
}

/// What is counted once `pages` are gone through.
spec fn counted(started: V2Metadata, pages: Seq<PageFacts>) -> V2Metadata {
    V2Metadata {
        compressed_total: compressed_bytes(pages) as u64,
        uncompressed_total: uncompressed_bytes(pages) as u64,
        min_frames: fewest_frames(pages),
        max_frames: most_frames(pages),
        first_key: if pages.len() == 0 {
            None
        } else {
            Some(pages.first().first_key)
        },
        last_key: if pages.len() == 0 {
            None
        } else {
            Some(pages.last().last_key)
        },
        codec_none_pages: codec_pages(pages, Codec::Uncompressed) as u64,
        codec_zstd_pages: codec_pages(pages, Codec::Zstd) as u64,
        codec_lz4_pages: codec_pages(pages, Codec::Lz4) as u64,
        compressed_page_frames: compressed_frames(pages) as u64,
        encoding_row_raw_v1_pages: encoding_pages(pages, Encoding::RowRawV1) as u64,
        encoding_columnar_basic_v1_pages: encoding_pages(pages, Encoding::ColumnarBasicV1) as u64,
        encoding_columnar_delta_v1_pages: encoding_pages(pages, Encoding::ColumnarDeltaV1) as u64,
        ..started
    }
}

/// Whether the counters have not run over.
spec fn within_limits(pages: Seq<PageFacts>) -> bool {
    &&& compressed_bytes(pages) <= u64::MAX
    &&& uncompressed_bytes(pages) <= u64::MAX
    &&& compressed_frames(pages) <= u64::MAX
    &&& codec_pages(pages, Codec::Uncompressed) <= pages.len()
    &&& codec_pages(pages, Codec::Zstd) <= pages.len()
    &&& codec_pages(pages, Codec::Lz4) <= pages.len()
    &&& encoding_pages(pages, Encoding::RowRawV1) <= pages.len()
    &&& encoding_pages(pages, Encoding::ColumnarBasicV1) <= pages.len()
    &&& encoding_pages(pages, Encoding::ColumnarDeltaV1) <= pages.len()
}

proof fn counting_step(pages: Seq<PageFacts>, count: int, page_size: u32, file_header_len: u64)
    requires
        0 <= count < pages.len(),
        countable(pages, page_size, file_header_len),
    ensures
        within_limits(pages.take(count + 1)),
        compressed_bytes(pages.take(count + 1)) == compressed_bytes(pages.take(count))
            + pages[count].compressed_len,
        uncompressed_bytes(pages.take(count + 1)) == uncompressed_bytes(pages.take(count))
            + pages[count].uncompressed_len,
        compressed_frames(pages.take(count + 1)) == compressed_frames(pages.take(count)) + if (
        pages[count].codec == Codec::Uncompressed) {
            0
        } else {
            pages[count].frame_count as int
        },
        forall|codec: Codec|
            #[trigger] codec_pages(pages.take(count + 1), codec) == codec_pages(
                pages.take(count),
                codec,
            ) + if pages[count].codec == codec {
                1int
            } else {
                0
            },
        forall|encoding: Encoding|
            #[trigger] encoding_pages(pages.take(count + 1), encoding) == encoding_pages(
                pages.take(count),
                encoding,
            ) + if pages[count].encoding == encoding {
                1int
            } else {
                0
            },
{
    let next = pages.take(count + 1);
    pages_are_counted_once(next);
    total_step(pages, count, |page: PageFacts| page.compressed_len as nat);
    total_step(pages, count, |page: PageFacts| page.uncompressed_len as nat);
    total_step(
        pages,
        count,
        |page: PageFacts|
            if page.codec == Codec::Uncompressed {
                0nat
            } else {
                page.frame_count as nat
            },
    );
    assert(next.drop_last() == pages.take(count));
}

/// What a measure of pages adds up to, it adds up to over any two parts of them.
proof fn totals_add_up(
    front: Seq<PageFacts>,
    back: Seq<PageFacts>,
    measure: spec_fn(PageFacts) -> nat,
)
    ensures
        total(front + back, measure) == total(front, measure) + total(back, measure),
    decreases back.len(),
{
    if back.len() == 0 {
        assert(front + back == front);
    } else {
        assert((front + back).drop_last() == front + back.drop_last());
        totals_add_up(front, back.drop_last(), measure);
    }
}

/// The fewest and the most frames are those of pages: no page holds fewer or more, and some pages
/// hold just so many.
pub proof fn extremes_are_reached(pages: Seq<PageFacts>, index: int)
    requires
        0 <= index < pages.len(),
    ensures
        fewest_frames(pages) <= pages[index].frame_count <= most_frames(pages),
        exists|k: int|
            0 <= k < pages.len() && (#[trigger] pages[k]).frame_count == fewest_frames(pages),
        exists|k: int|
            0 <= k < pages.len() && (#[trigger] pages[k]).frame_count == most_frames(pages),
    decreases pages.len(),
{
    let shorter = pages.drop_last();
    let last = pages.len() - 1;
    assert(pages[last] == pages.last());
    if last > 0 {
        extremes_are_reached(shorter, if index < last { index } else { 0 });
        let k = choose|k: int|
            0 <= k < shorter.len() && (#[trigger] shorter[k]).frame_count == fewest_frames(shorter);
        assert(pages[k] == shorter[k]);
        let l = choose|k: int|
            0 <= k < shorter.len() && (#[trigger] shorter[k]).frame_count == most_frames(shorter);
        assert(pages[l] == shorter[l]);
        assert(index < last ==> pages[index] == shorter[index]);
    } else {
        assert(shorter == Seq::<PageFacts>::empty());
    }
}

/// A file of one page takes up what the page does: the page is its header and the room for frames,
/// the room is the compressed frames and what is left free, and its codec and its encoding are
/// counted once.
pub proof fn one_page_is_counted_as_it_is(
    page: PageFacts,
    frame_count: u64,
    page_size: u32,
    file_header_len: u64,
    physical_bytes: u64,
)
    requires
        countable(seq![page], page_size, file_header_len),
        page.compressed_len <= payload_capacity(page_size),
        page_size >= PAGE_HEADER_LEN,
    ensures
        ({
            let found = metadata_of(
                seq![page],
                frame_count,
                page_size,
                file_header_len,
                physical_bytes,
            );
            &&& found.frame_count == frame_count
            &&& found.page_count == 1
            &&& found.physical_bytes == physical_bytes
            &&& found.expected_physical_bytes == file_header_len + page_size
            &&& found.payload_capacity_per_page + PAGE_HEADER_LEN == page_size
            &&& found.payload_capacity_total == found.payload_capacity_per_page
            &&& found.compressed_total == page.compressed_len
            &&& found.uncompressed_total == page.uncompressed_len
            &&& found.padding_bytes + found.compressed_total == found.payload_capacity_total
            &&& found.min_frames == page.frame_count
            &&& found.max_frames == page.frame_count
            &&& found.first_key == Some(page.first_key)
            &&& found.last_key == Some(page.last_key)
            &&& found.codec_none_pages == 1 <==> page.codec == Codec::Uncompressed
            &&& found.codec_zstd_pages == 1 <==> page.codec == Codec::Zstd
            &&& found.codec_lz4_pages == 1 <==> page.codec == Codec::Lz4
            &&& found.compressed_page_frames == if page.codec == Codec::Uncompressed {
                0
            } else {
                page.frame_count as u64
            }
            &&& found.encoding_row_raw_v1_pages == 1 <==> page.encoding == Encoding::RowRawV1
            &&& found.encoding_columnar_basic_v1_pages == 1 <==> page.encoding
                == Encoding::ColumnarBasicV1
            &&& found.encoding_columnar_delta_v1_pages == 1 <==> page.encoding
                == Encoding::ColumnarDeltaV1
        }),
{
    let pages = seq![page];
    assert(pages.drop_last() == Seq::<PageFacts>::empty());
    reveal_with_fuel(total, 2);
    reveal_with_fuel(fewest_frames, 2);
    reveal_with_fuel(most_frames, 2);
    assert(pages.len() * payload_capacity(page_size) == payload_capacity(page_size));
    assert(pages.len() * page_size == page_size);
}

proof fn extremes_of_two(front: Seq<PageFacts>, back: Seq<PageFacts>)
    ensures
        fewest_frames(front + back) == if fewest_frames(back) < fewest_frames(front) {
            fewest_frames(back)
        } else {
            fewest_frames(front)
        },
        most_frames(front + back) == if most_frames(back) > most_frames(front) {
            most_frames(back)
        } else {
            most_frames(front)
        },
    decreases back.len(),
{
    if back.len() == 0 {
        assert(front + back == front);
    } else {
        assert((front + back).drop_last() == front + back.drop_last());
        extremes_of_two(front, back.drop_last());
    }
}

/// Whether the frames of every page fit into it.
pub open spec fn pages_hold_their_frames(pages: Seq<PageFacts>, page_size: u32) -> bool {
    forall|k: int|
        0 <= k < pages.len() ==> (#[trigger] pages[k]).compressed_len <= payload_capacity(page_size)
}

proof fn compressed_frames_fit(pages: Seq<PageFacts>, page_size: u32)
    requires
        pages_hold_their_frames(pages, page_size),
    ensures
        compressed_bytes(pages) <= pages.len() * payload_capacity(page_size),
    decreases pages.len(),
{
    if pages.len() > 0 {
        let shorter = pages.drop_last();
        let capacity = payload_capacity(page_size);
        assert(pages_hold_their_frames(shorter, page_size)) by {
            assert forall|k: int| 0 <= k < shorter.len() implies (
            #[trigger] shorter[k]).compressed_len <= payload_capacity(page_size) by {
                assert(shorter[k] == pages[k]);
            }
        }
        compressed_frames_fit(shorter, page_size);
        assert(pages[pages.len() - 1].compressed_len <= capacity);
        assert(pages.len() * capacity == shorter.len() * capacity + capacity) by (nonlinear_arith)
            requires
                pages.len() == shorter.len() + 1,
        ;
    }
}

/// Pages of one file behind each other take up what the parts take up together: every sum adds up,
/// the extremes are those of both parts, and the keys are the first of the first part and the last
/// of the second.
pub proof fn parts_take_up_the_whole(
    front: Seq<PageFacts>,
    back: Seq<PageFacts>,
    frames: (u64, u64),
    page_size: u32,
    headers: (u64, u64),
    bytes: (u64, u64),
)
    requires
        frames.0 + frames.1 <= u64::MAX,
        headers.0 + headers.1 <= u64::MAX,
        bytes.0 + bytes.1 <= u64::MAX,
        countable(front, page_size, headers.0),
        countable(back, page_size, headers.1),
        countable(front + back, page_size, (headers.0 + headers.1) as u64),
        pages_hold_their_frames(front, page_size),
        pages_hold_their_frames(back, page_size),
        front.len() > 0,
        back.len() > 0,
        front.len() + back.len() <= u64::MAX,
    ensures
        ({
            let one = metadata_of(front, frames.0, page_size, headers.0, bytes.0);
            let other = metadata_of(back, frames.1, page_size, headers.1, bytes.1);
            let whole = metadata_of(
                front + back,
                (frames.0 + frames.1) as u64,
                page_size,
                (headers.0 + headers.1) as u64,
                (bytes.0 + bytes.1) as u64,
            );
            &&& whole.page_count == one.page_count + other.page_count
            &&& whole.expected_physical_bytes == one.expected_physical_bytes
                + other.expected_physical_bytes
            &&& whole.payload_capacity_per_page == one.payload_capacity_per_page
            &&& whole.payload_capacity_total == one.payload_capacity_total
                + other.payload_capacity_total
            &&& whole.compressed_total == one.compressed_total + other.compressed_total
            &&& whole.uncompressed_total == one.uncompressed_total + other.uncompressed_total
            &&& whole.padding_bytes == one.padding_bytes + other.padding_bytes
            &&& whole.first_key == one.first_key
            &&& whole.last_key == other.last_key
            &&& whole.min_frames == if other.min_frames < one.min_frames {
                other.min_frames
            } else {
                one.min_frames
            }
            &&& whole.max_frames == if other.max_frames > one.max_frames {
                other.max_frames
            } else {
                one.max_frames
            }
            &&& whole.codec_none_pages == one.codec_none_pages + other.codec_none_pages
            &&& whole.codec_zstd_pages == one.codec_zstd_pages + other.codec_zstd_pages
            &&& whole.codec_lz4_pages == one.codec_lz4_pages + other.codec_lz4_pages
            &&& whole.compressed_page_frames == one.compressed_page_frames
                + other.compressed_page_frames
            &&& whole.encoding_row_raw_v1_pages == one.encoding_row_raw_v1_pages
                + other.encoding_row_raw_v1_pages
            &&& whole.encoding_columnar_basic_v1_pages == one.encoding_columnar_basic_v1_pages
                + other.encoding_columnar_basic_v1_pages
            &&& whole.encoding_columnar_delta_v1_pages == one.encoding_columnar_delta_v1_pages
                + other.encoding_columnar_delta_v1_pages
        }),
{
    let all = front + back;
    let capacity = payload_capacity(page_size);
    sums_of_two(front, back);
    extremes_of_two(front, back);
    compressed_frames_fit(front, page_size);
    compressed_frames_fit(back, page_size);
    assert(all.len() * capacity == front.len() * capacity + back.len() * capacity)
        by (nonlinear_arith)
        requires
            all.len() == front.len() + back.len(),
    ;
    assert(all.len() * page_size == front.len() * page_size + back.len() * page_size)
        by (nonlinear_arith)
        requires
            all.len() == front.len() + back.len(),
    ;
    assert(all.len() * capacity <= all.len() * page_size) by (nonlinear_arith)
        requires
            capacity <= page_size,
    ;
    assert(front.len() * capacity <= all.len() * capacity) by (nonlinear_arith)
        requires
            front.len() <= all.len(),
    ;
    assert(back.len() * capacity <= all.len() * capacity) by (nonlinear_arith)
        requires
            back.len() <= all.len(),
    ;
    pages_are_counted_once(all);
    pages_are_counted_once(front);
    pages_are_counted_once(back);
}

proof fn sums_of_two(front: Seq<PageFacts>, back: Seq<PageFacts>)
    ensures
        compressed_bytes(front + back) == compressed_bytes(front) + compressed_bytes(back),
        uncompressed_bytes(front + back) == uncompressed_bytes(front) + uncompressed_bytes(back),
        compressed_frames(front + back) == compressed_frames(front) + compressed_frames(back),
        forall|codec: Codec| #[trigger]
            codec_pages(front + back, codec) == codec_pages(front, codec) + codec_pages(
                back,
                codec,
            ),
        forall|encoding: Encoding| #[trigger]
            encoding_pages(front + back, encoding) == encoding_pages(front, encoding)
                + encoding_pages(back, encoding),
{
    totals_add_up(front, back, |page: PageFacts| page.compressed_len as nat);
    totals_add_up(front, back, |page: PageFacts| page.uncompressed_len as nat);
    totals_add_up(
        front,
        back,
        |page: PageFacts|
            if page.codec == Codec::Uncompressed {
                0nat
            } else {
                page.frame_count as nat
            },
    );
    assert forall|codec: Codec| #[trigger]
        codec_pages(front + back, codec) == codec_pages(front, codec) + codec_pages(
            back,
            codec,
        ) by {
        totals_add_up(
            front,
            back,
            |page: PageFacts|
                if page.codec == codec {
                    1nat
                } else {
                    0nat
                },
        );
    }
    assert forall|encoding: Encoding| #[trigger]
        encoding_pages(front + back, encoding) == encoding_pages(front, encoding)
            + encoding_pages(back, encoding) by {
        totals_add_up(
            front,
            back,
            |page: PageFacts|
                if page.encoding == encoding {
                    1nat
                } else {
                    0nat
                },
        );
    }
}

} // verus!

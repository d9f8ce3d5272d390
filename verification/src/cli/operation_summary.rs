//! The summary that every command prints of the files it wrote.

use crate::cli::arguments::V2WriteOptions;
use crate::cli::metadata;
use crate::cli::metadata::{PageFacts, V2Metadata};
use crate::number;
use crate::options;
use crate::options::{FormatVersion, PAGE_HEADER_LEN};
use crate::text;
use crate::toml;
use crate::toml::{TomlModel, TomlWriter};
use vstd::prelude::*;
use vstd::string::*;

verus! {

/// What one written file takes up.
#[derive(Debug, Clone, Copy, PartialEq, Eq, Structural)]
pub enum FileStorage {
    V1 { frame_count: u64, physical_bytes: u64, frame_length: u32 },
    V2(V2Metadata),
}

/// What the files that a command wrote take up together.
#[derive(Debug, Clone, Copy, PartialEq, Eq, Structural)]
pub enum StorageSummary {
    V1 { frame_count: u64, physical_bytes: u64, raw_bytes: u64 },
    V2(V2Metadata),
}

/// A product, or the largest number where it is larger.
pub open spec fn saturated_product(left: u64, right: u32) -> u64 {
    if left * right > u64::MAX {
        u64::MAX
    } else {
        (left * right) as u64
    }
}

/// A product, or the largest number where it is larger.
pub fn saturating_product(left: u64, right: u32) -> (result: u64)
    ensures
        result == saturated_product(left, right),
{
    match left.checked_mul(right as u64) {
        Some(product) => product,
        None => u64::MAX,
    }
}

/// What no v2 file takes up.
pub open spec fn no_metadata(page_size: u32) -> V2Metadata {
    V2Metadata {
        frame_count: 0,
        page_count: 0,
        physical_bytes: 0,
        expected_physical_bytes: 0,
        payload_capacity_per_page: metadata::payload_capacity(page_size),
        payload_capacity_total: 0,
        compressed_total: 0,
        uncompressed_total: 0,
        padding_bytes: 0,
        min_frames: 0,
        max_frames: 0,
        first_key: None,
        last_key: None,
        codec_none_pages: 0,
        codec_zstd_pages: 0,
        codec_lz4_pages: 0,
        compressed_page_frames: 0,
        encoding_row_raw_v1_pages: 0,
        encoding_columnar_basic_v1_pages: 0,
        encoding_columnar_delta_v1_pages: 0,
    }
}

/// What two v2 files in a row take up together.
pub open spec fn merged_metadata(target: V2Metadata, source: V2Metadata) -> V2Metadata {
    V2Metadata {
        frame_count: target.frame_count.saturating_add(source.frame_count),
        page_count: target.page_count.saturating_add(source.page_count),
        physical_bytes: target.physical_bytes.saturating_add(source.physical_bytes),
        expected_physical_bytes: target.expected_physical_bytes.saturating_add(
            source.expected_physical_bytes,
        ),
        payload_capacity_per_page: target.payload_capacity_per_page,
        payload_capacity_total: target.payload_capacity_total.saturating_add(
            source.payload_capacity_total,
        ),
        compressed_total: target.compressed_total.saturating_add(source.compressed_total),
        uncompressed_total: target.uncompressed_total.saturating_add(source.uncompressed_total),
        padding_bytes: target.padding_bytes.saturating_add(source.padding_bytes),
        min_frames: if source.min_frames < target.min_frames {
            source.min_frames
        } else {
            target.min_frames
        },
        max_frames: if source.max_frames > target.max_frames {
            source.max_frames
        } else {
            target.max_frames
        },
        first_key: match target.first_key {
            Some(key) => Some(key),
            None => source.first_key,
        },
        last_key: match source.last_key {
            Some(key) => Some(key),
            None => target.last_key,
        },
        codec_none_pages: target.codec_none_pages.saturating_add(source.codec_none_pages),
        codec_zstd_pages: target.codec_zstd_pages.saturating_add(source.codec_zstd_pages),
        codec_lz4_pages: target.codec_lz4_pages.saturating_add(source.codec_lz4_pages),
        compressed_page_frames: target.compressed_page_frames.saturating_add(
            source.compressed_page_frames,
        ),
        encoding_row_raw_v1_pages: target.encoding_row_raw_v1_pages.saturating_add(
            source.encoding_row_raw_v1_pages,
        ),
        encoding_columnar_basic_v1_pages: target.encoding_columnar_basic_v1_pages.saturating_add(
            source.encoding_columnar_basic_v1_pages,
        ),
        encoding_columnar_delta_v1_pages: target.encoding_columnar_delta_v1_pages.saturating_add(
            source.encoding_columnar_delta_v1_pages,
        ),
    }
}

/// Adds what one more v2 file takes up.
pub fn merge_v2_metadata(target: &mut V2Metadata, source: V2Metadata)
    ensures
        *final(target) == merged_metadata(*old(target), source),
{
    target.frame_count = target.frame_count.saturating_add(source.frame_count);
    target.page_count = target.page_count.saturating_add(source.page_count);
    target.physical_bytes = target.physical_bytes.saturating_add(source.physical_bytes);
    target.expected_physical_bytes =
    target.expected_physical_bytes.saturating_add(source.expected_physical_bytes);
    target.payload_capacity_total =
    target.payload_capacity_total.saturating_add(source.payload_capacity_total);
    target.compressed_total = target.compressed_total.saturating_add(source.compressed_total);
    target.uncompressed_total = target.uncompressed_total.saturating_add(source.uncompressed_total);
    target.padding_bytes = target.padding_bytes.saturating_add(source.padding_bytes);
    if source.min_frames < target.min_frames {
        target.min_frames = source.min_frames;
    }
    if source.max_frames > target.max_frames {
        target.max_frames = source.max_frames;
    }
    if target.first_key.is_none() {
        target.first_key = source.first_key;
    }
    if source.last_key.is_some() {
        target.last_key = source.last_key;
    }
    target.codec_none_pages = target.codec_none_pages.saturating_add(source.codec_none_pages);
    target.codec_zstd_pages = target.codec_zstd_pages.saturating_add(source.codec_zstd_pages);
    target.codec_lz4_pages = target.codec_lz4_pages.saturating_add(source.codec_lz4_pages);
    target.compressed_page_frames =
    target.compressed_page_frames.saturating_add(source.compressed_page_frames);
    target.encoding_row_raw_v1_pages =
    target.encoding_row_raw_v1_pages.saturating_add(source.encoding_row_raw_v1_pages);
    target.encoding_columnar_basic_v1_pages =
    target.encoding_columnar_basic_v1_pages.saturating_add(source.encoding_columnar_basic_v1_pages);
    target.encoding_columnar_delta_v1_pages =
    target.encoding_columnar_delta_v1_pages.saturating_add(source.encoding_columnar_delta_v1_pages);
}

/// What one written file takes up, as a summary.
pub open spec fn single_storage(file: FileStorage) -> StorageSummary {
    match file {
        FileStorage::V1 { frame_count, physical_bytes, frame_length } => StorageSummary::V1 {
            frame_count,
            physical_bytes,
            raw_bytes: saturated_product(frame_count, frame_length),
        },
        FileStorage::V2(metadata) => StorageSummary::V2(metadata),
    }
}

/// A summary with one more file, or `None` where the file is of another format.
pub open spec fn with_storage(summary: StorageSummary, file: FileStorage) -> Option<
    StorageSummary,
> {
    match (summary, single_storage(file)) {
        (
            StorageSummary::V1 { frame_count, physical_bytes, raw_bytes },
            StorageSummary::V1 {
                frame_count: more_frames,
                physical_bytes: more_bytes,
                raw_bytes: more_raw_bytes,
            },
        ) => Some(
            StorageSummary::V1 {
                frame_count: frame_count.saturating_add(more_frames),
                physical_bytes: physical_bytes.saturating_add(more_bytes),
                raw_bytes: raw_bytes.saturating_add(more_raw_bytes),
            },
        ),
        (StorageSummary::V2(target), StorageSummary::V2(source)) => Some(
            StorageSummary::V2(merged_metadata(target, source)),
        ),
        _ => None,
    }
}

/// What files take up together, or why that cannot be said.
pub open spec fn storage_of(files: Seq<FileStorage>) -> Result<StorageSummary, Seq<char>>
    decreases files.len(),
{
    if files.len() == 0 {
        Err("cannot infer storage format from an empty output list"@)
    } else if files.len() == 1 {
        Ok(single_storage(files[0]))
    } else {
        match storage_of(files.drop_last()) {
            Err(message) => Err(message),
            Ok(summary) => match with_storage(summary, files.last()) {
                Some(summary) => Ok(summary),
                None => Err("operation outputs use mixed format versions"@),
            },
        }
    }
}

proof fn storage_error_stays(files: Seq<FileStorage>, count: int)
    requires
        0 < count <= files.len(),
        storage_of(files.take(count)) is Err,
    ensures
        storage_of(files) == storage_of(files.take(count)),
    decreases files.len() - count,
{
    if count < files.len() {
        assert(files.take(count + 1).drop_last() == files.take(count));
        storage_error_stays(files, count + 1);
    } else {
        assert(files.take(count) == files);
    }
}

impl StorageSummary {
    /// The format of the files.
    pub open spec fn version(self) -> FormatVersion {
        match self {
            StorageSummary::V1 { .. } => FormatVersion::V1,
            StorageSummary::V2(_) => FormatVersion::V2,
        }
    }

    /// How many frames the files hold.
    pub open spec fn frames(self) -> u64 {
        match self {
            StorageSummary::V1 { frame_count, .. } => frame_count,
            StorageSummary::V2(metadata) => metadata.frame_count,
        }
    }

    /// What no file takes up.
    pub fn empty(format: FormatVersion, page_size: u32) -> (result: Self)
        ensures
            result == match format {
                FormatVersion::V1 => StorageSummary::V1 {
                    frame_count: 0,
                    physical_bytes: 0,
                    raw_bytes: 0,
                },
                FormatVersion::V2 => StorageSummary::V2(no_metadata(page_size)),
            },
    {
        match format {
            FormatVersion::V1 => StorageSummary::V1 {
                frame_count: 0,
                physical_bytes: 0,
                raw_bytes: 0,
            },
            FormatVersion::V2 => StorageSummary::V2(
                V2Metadata {
                    frame_count: 0,
                    page_count: 0,
                    physical_bytes: 0,
                    expected_physical_bytes: 0,
                    payload_capacity_per_page: page_size.saturating_sub(PAGE_HEADER_LEN) as u64,
                    payload_capacity_total: 0,
                    compressed_total: 0,
                    uncompressed_total: 0,
                    padding_bytes: 0,
                    min_frames: 0,
                    max_frames: 0,
                    first_key: None,
                    last_key: None,
                    codec_none_pages: 0,
                    codec_zstd_pages: 0,
                    codec_lz4_pages: 0,
                    compressed_page_frames: 0,
                    encoding_row_raw_v1_pages: 0,
                    encoding_columnar_basic_v1_pages: 0,
                    encoding_columnar_delta_v1_pages: 0,
                },
            ),
        }
    }

    /// What files take up together, or why that cannot be said.
    pub fn collect(files: &[FileStorage]) -> (result: Result<Self, String>)
        ensures
            text::worded(result) == storage_of(files@),
    {
        if files.len() == 0 {
            return Err("cannot infer storage format from an empty output list".to_owned());
        }
        let mut summary: StorageSummary = match files[0] {
            FileStorage::V1 { frame_count, physical_bytes, frame_length } => StorageSummary::V1 {
                frame_count,
                physical_bytes,
                raw_bytes: saturating_product(frame_count, frame_length),
            },
            FileStorage::V2(metadata) => StorageSummary::V2(metadata),
        };
        let mut i: usize = 1;
        assert(files@.take(1)[0] == files@[0]);
        while i < files.len()
            invariant
                1 <= i <= files@.len(),
                storage_of(files@.take(i as int)) == Ok::<StorageSummary, Seq<char>>(summary),
            decreases files@.len() - i,
        {
            assert(files@.take(i as int + 1).drop_last() == files@.take(i as int));
            summary = match (summary, files[i]) {
                (
                    StorageSummary::V1 { frame_count, physical_bytes, raw_bytes },
                    FileStorage::V1 {
                        frame_count: more_frames,
                        physical_bytes: more_bytes,
                        frame_length,
                    },
                ) => StorageSummary::V1 {
                    frame_count: frame_count.saturating_add(more_frames),
                    physical_bytes: physical_bytes.saturating_add(more_bytes),
                    raw_bytes: raw_bytes.saturating_add(
                        saturating_product(more_frames, frame_length),
                    ),
                },
                (StorageSummary::V2(target), FileStorage::V2(source)) => {
                    let mut merged: V2Metadata = target;
                    merge_v2_metadata(&mut merged, source);
                    StorageSummary::V2(merged)
                },
                _ => {
                    proof {
                        storage_error_stays(files@, i as int + 1);
                    }
                    return Err("operation outputs use mixed format versions".to_owned());
                },
            };
            i = i + 1;
        }
        assert(files@.take(i as int) == files@);
        Ok(summary)
    }

    /// The name of the format of the files.
    pub fn format_name(&self) -> (result: &'static str)
        ensures
            result@ == options::format_name_text(self.version()),
    {
        match self {
            StorageSummary::V1 { .. } => options::format_name(FormatVersion::V1),
            StorageSummary::V2(_) => options::format_name(FormatVersion::V2),
        }
    }

    /// What v2 files take up, where the files are v2.
    pub fn v2_metadata(&self) -> (result: Option<V2Metadata>)
        ensures
            result == match *self {
                StorageSummary::V1 { .. } => None,
                StorageSummary::V2(metadata) => Some(metadata),
            },
    {
        match self {
            StorageSummary::V1 { .. } => None,
            StorageSummary::V2(metadata) => Some(*metadata),
        }
    }

    /// How many frames the files hold.
    pub fn frame_count(&self) -> (result: u64)
        ensures
            result == self.frames(),
    {
        match self {
            StorageSummary::V1 { frame_count, .. } => *frame_count,
            StorageSummary::V2(metadata) => metadata.frame_count,
        }
    }

    /// How many pages the files have, where they have pages.
    pub fn page_count(&self) -> (result: Option<u64>)
        ensures
            result == match *self {
                StorageSummary::V1 { .. } => None,
                StorageSummary::V2(metadata) => Some(metadata.page_count),
            },
    {
        match self {
            StorageSummary::V1 { .. } => None,
            StorageSummary::V2(metadata) => Some(metadata.page_count),
        }
    }
}

/// What a command did.
pub struct OperationResult<'a> {
    pub section: &'a str,
    pub storage: StorageSummary,
    pub input: Option<&'a str>,
    pub output: &'a str,
    pub input_count: usize,
    pub verified: bool,
    /// The seconds that it took, to three places.
    pub elapsed_seconds: &'a str,
}

/// The section that says what a command did.
pub open spec fn operation_result_doc(w: TomlModel, result: OperationResult<'_>) -> TomlModel {
    let w = w.section(result.section@).kv_str(
        "target_format"@,
        options::format_name_text(result.storage.version()),
    );
    let w = match result.input {
        Some(input) => w.kv_str("input"@, input@),
        None => w,
    };
    let w = w.kv_str("output"@, result.output@).kv_num(
        "input_count"@,
        result.input_count as int,
    ).kv_num("frames"@, result.storage.frames() as int);
    let w = match result.storage {
        StorageSummary::V1 { .. } => w,
        StorageSummary::V2(metadata) => w.kv_num("pages"@, metadata.page_count as int),
    };
    w.kv_bool("verified"@, result.verified).kv_str(
        "verification"@,
        if result.verified {
            "completed"@
        } else {
            "skipped (run `fwob verify` or pass verify)"@
        },
    ).kv_float("elapsed_seconds"@, result.elapsed_seconds@)
}

/// Writes the section that says what a command did.
pub fn print_operation_result(w: &mut TomlWriter, result: &OperationResult<'_>)
    ensures
        final(w)@ == operation_result_doc(old(w)@, *result),
{
    w.section(result.section);
    w.kv_str("target_format", result.storage.format_name());
    if let Some(input) = result.input {
        w.kv_str("input", input);
    }
    w.kv_str("output", result.output);
    w.kv_num("input_count", result.input_count);
    w.kv_num("frames", result.storage.frame_count());
    if let Some(page_count) = result.storage.page_count() {
        w.kv_num("pages", page_count);
    }
    w.kv_bool("verified", result.verified);
    w.kv_str(
        "verification",
        if result.verified {
            "completed"
        } else {
            "skipped (run `fwob verify` or pass verify)"
        },
    );
    w.kv_float("elapsed_seconds", result.elapsed_seconds);
}

/// How often a v2 writer tried to fill its pages.
pub struct PackingStats {
    pub first_page_attempts: u64,
    /// To two places.
    pub subsequent_average_attempts: String,
    pub subsequent_min_attempts: u64,
    pub subsequent_max_attempts: u64,
    pub subsequent_pages: u64,
    /// To two places each.
    pub window_frame_spans: Vec<String>,
    /// To two places.
    pub average_initial_window_attempts: String,
    /// To four places each.
    pub window_final_positions: Vec<String>,
    pub initial_windows: u64,
}

/// Two numbers with two dots between them.
pub open spec fn span_text(first: int, last: int) -> Seq<char> {
    number::integer_text(first) + ".."@ + number::integer_text(last)
}

/// The section that says how often a v2 writer tried to fill its pages.
pub open spec fn packing_doc(w: TomlModel, stats: PackingStats) -> TomlModel {
    w.section("packing"@).kv_num(
        "first_page_compression_attempts"@,
        stats.first_page_attempts as int,
    ).kv_float(
        "subsequent_page_average_compression_attempts"@,
        stats.subsequent_average_attempts@,
    ).kv_str(
        "subsequent_page_compression_attempts_range"@,
        span_text(stats.subsequent_min_attempts as int, stats.subsequent_max_attempts as int),
    ).kv_num("subsequent_compressed_pages_measured"@, stats.subsequent_pages as int).kv_float_array(
        "average_initial_window_frame_span"@,
        text::views(stats.window_frame_spans@),
    ).kv_float(
        "average_initial_window_attempts"@,
        stats.average_initial_window_attempts@,
    ).kv_float_array(
        "average_initial_window_final_position"@,
        text::views(stats.window_final_positions@),
    ).kv_num("initial_windows_measured"@, stats.initial_windows as int)
}

/// Writes the section that says how often a v2 writer tried to fill its pages.
pub fn print_packing_stats_toml(w: &mut TomlWriter, stats: &PackingStats)
    ensures
        final(w)@ == packing_doc(old(w)@, *stats),
{
    w.section("packing");
    w.kv_num("first_page_compression_attempts", stats.first_page_attempts);
    w.kv_float(
        "subsequent_page_average_compression_attempts",
        stats.subsequent_average_attempts.as_str(),
    );
    let mut span: String = number::decimal_string(stats.subsequent_min_attempts as u128);
    span.append("..");
    number::push_decimal(&mut span, stats.subsequent_max_attempts as u128);
    w.kv_str("subsequent_page_compression_attempts_range", span.as_str());
    w.kv_num("subsequent_compressed_pages_measured", stats.subsequent_pages);
    w.kv_float_array("average_initial_window_frame_span", stats.window_frame_spans.as_slice());
    w.kv_float(
        "average_initial_window_attempts",
        stats.average_initial_window_attempts.as_str(),
    );
    w.kv_float_array(
        "average_initial_window_final_position",
        stats.window_final_positions.as_slice(),
    );
    w.kv_num("initial_windows_measured", stats.initial_windows);
}

/// Quotients of what files take up.
pub struct StorageRatios {
    /// Frames in compressed pages to compressed pages, to two places.
    pub average_frames_per_compressed_page: String,
    /// Compressed bytes to uncompressed bytes, to four places.
    pub payload_ratio: String,
    /// Bytes of the file to uncompressed bytes, to four places.
    pub physical_ratio: String,
    /// Compressed bytes to the room of all pages, to four places.
    pub page_payload_utilization: String,
}

/// The lines that say how v2 files are compressed. A quotient is left out where it would divide by
/// zero.
pub open spec fn compression_doc(w: TomlModel, metadata: V2Metadata, ratios: StorageRatios) -> TomlModel {
    let w = w.kv_num("compressed_payload_bytes"@, metadata.compressed_total as int).kv_num(
        "uncompressed_payload_bytes"@,
        metadata.uncompressed_total as int,
    );
    let w = if metadata.codec_zstd_pages > 0 || metadata.codec_lz4_pages > 0 {
        w.kv_float(
            "average_frames_per_compressed_page"@,
            ratios.average_frames_per_compressed_page@,
        )
    } else {
        w
    };
    if metadata.uncompressed_total > 0 {
        w.kv_float("payload_ratio"@, ratios.payload_ratio@).kv_float(
            "physical_ratio"@,
            ratios.physical_ratio@,
        )
    } else {
        w
    }
}

/// Writes the lines that say how v2 files are compressed.
pub fn print_compression_stats_values(
    w: &mut TomlWriter,
    metadata: &V2Metadata,
    ratios: &StorageRatios,
)
    ensures
        final(w)@ == compression_doc(old(w)@, *metadata, *ratios),
{
    w.kv_num("compressed_payload_bytes", metadata.compressed_total);
    w.kv_num("uncompressed_payload_bytes", metadata.uncompressed_total);
    if metadata.codec_zstd_pages > 0 || metadata.codec_lz4_pages > 0 {
        w.kv_float(
            "average_frames_per_compressed_page",
            ratios.average_frames_per_compressed_page.as_str(),
        );
    }
    if metadata.uncompressed_total > 0 {
        w.kv_float("payload_ratio", ratios.payload_ratio.as_str());
        w.kv_float("physical_ratio", ratios.physical_ratio.as_str());
    }
}

/// The lines that count pages by codec and by encoding.
pub open spec fn page_stats_doc(w: TomlModel, metadata: V2Metadata) -> TomlModel {
    w.kv_num("codec_none_pages"@, metadata.codec_none_pages as int).kv_num(
        "codec_zstd_pages"@,
        metadata.codec_zstd_pages as int,
    ).kv_num("codec_lz4_pages"@, metadata.codec_lz4_pages as int).kv_num(
        "encoding_row_raw_v1_pages"@,
        metadata.encoding_row_raw_v1_pages as int,
    ).kv_num(
        "encoding_columnar_basic_v1_pages"@,
        metadata.encoding_columnar_basic_v1_pages as int,
    ).kv_num(
        "encoding_columnar_delta_v1_pages"@,
        metadata.encoding_columnar_delta_v1_pages as int,
    )
}

/// Writes the lines that count pages by codec and by encoding.
pub fn print_page_codec_encoding_stats_toml(w: &mut TomlWriter, metadata: &V2Metadata)
    ensures
        final(w)@ == page_stats_doc(old(w)@, *metadata),
{
    w.kv_num("codec_none_pages", metadata.codec_none_pages);
    w.kv_num("codec_zstd_pages", metadata.codec_zstd_pages);
    w.kv_num("codec_lz4_pages", metadata.codec_lz4_pages);
    w.kv_num("encoding_row_raw_v1_pages", metadata.encoding_row_raw_v1_pages);
    w.kv_num("encoding_columnar_basic_v1_pages", metadata.encoding_columnar_basic_v1_pages);
    w.kv_num("encoding_columnar_delta_v1_pages", metadata.encoding_columnar_delta_v1_pages);
}

/// What every command says of the files it wrote.
pub struct CommonSummary<'a> {
    pub storage: StorageSummary,
    pub ratios: &'a StorageRatios,
    pub key_field_index: usize,
    pub page_size: Option<u32>,
    pub write: Option<V2WriteOptions>,
    pub packing: Option<&'a PackingStats>,
    pub parallelism: Option<usize>,
    pub verified: bool,
}

impl<'a> CommonSummary<'a> {
    /// What a command says of the files it wrote. Pages have a size and write settings only in v2
    /// files.
    pub fn of(
        storage: StorageSummary,
        ratios: &'a StorageRatios,
        key_field_index: usize,
        page_size: u32,
        write: V2WriteOptions,
        packing: Option<&'a PackingStats>,
        parallelism: Option<usize>,
    ) -> (result: Self)
        ensures
            result.storage == storage,
            result.ratios == ratios,
            result.key_field_index == key_field_index,
            result.page_size == match storage {
                StorageSummary::V1 { .. } => None,
                StorageSummary::V2(_) => Some(page_size),
            },
            result.write == match storage {
                StorageSummary::V1 { .. } => None,
                StorageSummary::V2(_) => Some(write),
            },
            result.packing == packing,
            result.parallelism == parallelism,
            result.verified == write.verify,
    {
        let paged: bool = match storage {
            StorageSummary::V1 { .. } => false,
            StorageSummary::V2(_) => true,
        };
        CommonSummary {
            storage,
            ratios,
            key_field_index,
            page_size: if paged { Some(page_size) } else { None },
            write: if paged { Some(write) } else { None },
            packing,
            parallelism,
            verified: write.verify,
        }
    }
}

/// The section on the settings that files were written with.
pub open spec fn parameters_doc(w: TomlModel, summary: CommonSummary<'_>) -> TomlModel {
    let w = w.section("parameters"@).kv_str(
        "target_format"@,
        options::format_name_text(summary.storage.version()),
    ).kv_num("key_field_index"@, summary.key_field_index as int);
    let w = match summary.page_size {
        Some(page_size) => w.kv_num("page_size"@, page_size as int),
        None => w,
    };
    let w = match summary.parallelism {
        Some(parallelism) => w.kv_num("parallelism"@, parallelism as int),
        None => w,
    };
    let w = match summary.write {
        Some(write) => w.kv_str("codec"@, write.codec.word()).kv_str(
            "encoding"@,
            write.encoding.word(),
        ).kv_num("zstd_level"@, write.zstd_level as int).kv_bool(
            "compress_partial_page"@,
            write.compress_partial_page,
        ).kv_str("page_packing"@, write.page_packing.word()),
        None => w,
    };
    w.kv_bool("verify"@, summary.verified)
}

/// The section on how files are compressed.
pub open spec fn compression_section(w: TomlModel, summary: CommonSummary<'_>) -> TomlModel {
    let w = w.section("compression"@);
    match summary.storage {
        StorageSummary::V1 { raw_bytes, .. } => {
            let w = w.kv_num("compressed_payload_bytes"@, raw_bytes as int).kv_num(
                "uncompressed_payload_bytes"@,
                raw_bytes as int,
            );
            if raw_bytes > 0 {
                w.kv_float("payload_ratio"@, "1.0000"@).kv_float(
                    "physical_ratio"@,
                    summary.ratios.physical_ratio@,
                )
            } else {
                w
            }
        },
        StorageSummary::V2(metadata) => compression_doc(w, metadata, *summary.ratios),
    }
}

/// What every command says of the files it wrote: the settings, the packing, the compression and
/// the pages. What v1 files do not have is marked as not available.
pub open spec fn common_doc(w: TomlModel, summary: CommonSummary<'_>) -> TomlModel {
    let w = parameters_doc(w.blank(), summary).blank();
    let w = match summary.packing {
        Some(stats) => packing_doc(w, *stats),
        None => w.section("packing"@).kv_bool("available"@, false),
    };
    let w = compression_section(w.blank(), summary);
    let w = w.blank().section("page_stats"@);
    match summary.storage {
        StorageSummary::V1 { .. } => w.kv_bool("available"@, false),
        StorageSummary::V2(metadata) => page_stats_doc(w, metadata),
    }
}

fn print_parameters(w: &mut TomlWriter, summary: &CommonSummary<'_>)
    ensures
        final(w)@ == parameters_doc(old(w)@, *summary),
{
    w.section("parameters");
    w.kv_str("target_format", summary.storage.format_name());
    w.kv_num("key_field_index", summary.key_field_index);
    if let Some(page_size) = summary.page_size {
        w.kv_num("page_size", page_size);
    }
    if let Some(parallelism) = summary.parallelism {
        w.kv_num("parallelism", parallelism);
    }
    if let Some(write) = summary.write {
        w.kv_str("codec", write.codec.as_str());
        w.kv_str("encoding", write.encoding.as_str());
        w.kv_num("zstd_level", write.zstd_level);
        w.kv_bool("compress_partial_page", write.compress_partial_page);
        w.kv_str("page_packing", write.page_packing.as_str());
    }
    w.kv_bool("verify", summary.verified);
}

fn print_compression(w: &mut TomlWriter, summary: &CommonSummary<'_>)
    ensures
        final(w)@ == compression_section(old(w)@, *summary),
{
    w.section("compression");
    match summary.storage {
        StorageSummary::V1 { raw_bytes, .. } => {
            w.kv_num("compressed_payload_bytes", raw_bytes);
            w.kv_num("uncompressed_payload_bytes", raw_bytes);
            if raw_bytes > 0 {
                w.kv_float("payload_ratio", "1.0000");
                w.kv_float("physical_ratio", summary.ratios.physical_ratio.as_str());
            }
        },
        StorageSummary::V2(metadata) => {
            print_compression_stats_values(w, &metadata, summary.ratios);
        },
    }
}

/// Writes what every command says of the files it wrote.
pub fn print_common_sections(w: &mut TomlWriter, summary: &CommonSummary<'_>)
    ensures
        final(w)@ == common_doc(old(w)@, *summary),
{
    w.blank();
    print_parameters(w, summary);
    w.blank();
    match summary.packing {
        Some(stats) => print_packing_stats_toml(w, stats),
        None => {
            w.section("packing");
            w.kv_bool("available", false);
        },
    }
    w.blank();
    print_compression(w, summary);
    w.blank();
    w.section("page_stats");
    match summary.storage {
        StorageSummary::V1 { .. } => w.kv_bool("available", false),
        StorageSummary::V2(metadata) => print_page_codec_encoding_stats_toml(w, &metadata),
    }
}

/// A file behind others is of their format, and adds its frames to theirs up to the largest number.
pub proof fn frames_add_up(files: Seq<FileStorage>)
    requires
        files.len() >= 2,
        storage_of(files) is Ok,
    ensures
        storage_of(files.drop_last()) is Ok,
        storage_of(files)->Ok_0.frames() == storage_of(
            files.drop_last(),
        )->Ok_0.frames().saturating_add(single_storage(files.last()).frames()),
        storage_of(files)->Ok_0.version() == single_storage(files.last()).version(),
{
}

/// Files can be summed up exactly if there is one and all are of one format, which is that of the
/// summary.
pub proof fn formats_are_not_mixed(files: Seq<FileStorage>)
    ensures
        storage_of(files) is Ok <==> files.len() > 0 && forall|k: int|
            0 <= k < files.len() ==> ((#[trigger] files[k]) is V1 <==> files[0] is V1),
        storage_of(files) matches Ok(summary) ==> (summary is V1 <==> files[0] is V1),
        storage_of(files) matches Ok(summary) ==> (summary.version() == FormatVersion::V1 <==>
            files[0] is V1),
    decreases files.len(),
{
    if files.len() > 1 {
        let shorter = files.drop_last();
        formats_are_not_mixed(shorter);
        assert(forall|k: int| 0 <= k < shorter.len() ==> #[trigger] shorter[k] == files[k]);
        assert(forall|k: int| 0 <= k < shorter.len() ==> #[trigger] files[k] == shorter[k]);
        assert(files[files.len() - 1] == files.last());
    }
}

/// The frames of a file, and what they take up before compression and on disk.
pub open spec fn sizes_of(file: FileStorage) -> (int, int, int) {
    match file {
        FileStorage::V1 { frame_count, physical_bytes, frame_length } => (
            frame_count as int,
            frame_count * frame_length,
            physical_bytes as int,
        ),
        FileStorage::V2(metadata) => (
            metadata.frame_count as int,
            metadata.uncompressed_total as int,
            metadata.physical_bytes as int,
        ),
    }
}

/// The frames of a summary, and what they take up before compression and on disk.
pub open spec fn sizes_together(summary: StorageSummary) -> (int, int, int) {
    match summary {
        StorageSummary::V1 { frame_count, physical_bytes, raw_bytes } => (
            frame_count as int,
            raw_bytes as int,
            physical_bytes as int,
        ),
        StorageSummary::V2(metadata) => (
            metadata.frame_count as int,
            metadata.uncompressed_total as int,
            metadata.physical_bytes as int,
        ),
    }
}

/// What one file more adds to a summary, as long as nothing runs over: its frames, their bytes and
/// the bytes on disk. One file alone is summed up as it is.
pub proof fn each_file_adds_its_size(files: Seq<FileStorage>)
    requires
        storage_of(files) is Ok,
    ensures
        files.len() == 1 && sizes_of(files[0]).1 <= u64::MAX ==> sizes_together(
            storage_of(files)->Ok_0,
        ) == sizes_of(files[0]),
        files.len() > 1 ==> {
            let before = sizes_together(storage_of(files.drop_last())->Ok_0);
            let more = sizes_of(files.last());
            let after = sizes_together(storage_of(files)->Ok_0);
            &&& before.0 + more.0 <= u64::MAX ==> after.0 == before.0 + more.0
            &&& before.1 + more.1 <= u64::MAX ==> after.1 == before.1 + more.1
            &&& before.2 + more.2 <= u64::MAX ==> after.2 == before.2 + more.2
        },
{
}

/// Two v2 files take up together what the pages of both would in one file.
pub proof fn merging_is_counting_all_pages(
    front: Seq<PageFacts>,
    back: Seq<PageFacts>,
    frames: (u64, u64),
    page_size: u32,
    headers: (u64, u64),
    bytes: (u64, u64),
)
    requires
        frames.0 + frames.1 <= u64::MAX,
        headers.0 + headers.1 <= u64::MAX,
        bytes.0 + bytes.1 <= u64::MAX,
        metadata::countable(front, page_size, headers.0),
        metadata::countable(back, page_size, headers.1),
        metadata::countable(front + back, page_size, (headers.0 + headers.1) as u64),
        metadata::pages_hold_their_frames(front, page_size),
        metadata::pages_hold_their_frames(back, page_size),
        front.len() > 0,
        back.len() > 0,
        front.len() + back.len() <= u64::MAX,
    ensures
        merged_metadata(
            metadata::metadata_of(front, frames.0, page_size, headers.0, bytes.0),
            metadata::metadata_of(back, frames.1, page_size, headers.1, bytes.1),
        ) == metadata::metadata_of(
            front + back,
            (frames.0 + frames.1) as u64,
            page_size,
            (headers.0 + headers.1) as u64,
            (bytes.0 + bytes.1) as u64,
        ),
{
    metadata::parts_take_up_the_whole(front, back, frames, page_size, headers, bytes);
}

/// The counts of pages stand in the summary under the codec and the encoding that they count.
pub proof fn page_counts_are_said(w: TomlModel, metadata: V2Metadata)
    requires
        !w.color,
    ensures
        ({
            let said = page_stats_doc(w, metadata);
            &&& said.color == w.color
            &&& said.says_number("codec_none_pages"@, metadata.codec_none_pages as int)
            &&& said.says_number("codec_zstd_pages"@, metadata.codec_zstd_pages as int)
            &&& said.says_number("codec_lz4_pages"@, metadata.codec_lz4_pages as int)
            &&& said.says_number(
                "encoding_row_raw_v1_pages"@,
                metadata.encoding_row_raw_v1_pages as int,
            )
            &&& said.says_number(
                "encoding_columnar_basic_v1_pages"@,
                metadata.encoding_columnar_basic_v1_pages as int,
            )
            &&& said.says_number(
                "encoding_columnar_delta_v1_pages"@,
                metadata.encoding_columnar_delta_v1_pages as int,
            )
        }),
{
    toml::values_are_said(
        w,
        "codec_none_pages"@,
        number::integer_text(metadata.codec_none_pages as int),
    );
    let w1 = w.kv_num("codec_none_pages"@, metadata.codec_none_pages as int);
    toml::values_are_said(
        w1,
        "codec_zstd_pages"@,
        number::integer_text(metadata.codec_zstd_pages as int),
    );
    let w2 = w1.kv_num("codec_zstd_pages"@, metadata.codec_zstd_pages as int);
    toml::values_are_said(
        w2,
        "codec_lz4_pages"@,
        number::integer_text(metadata.codec_lz4_pages as int),
    );
    let w3 = w2.kv_num("codec_lz4_pages"@, metadata.codec_lz4_pages as int);
    toml::values_are_said(
        w3,
        "encoding_row_raw_v1_pages"@,
        number::integer_text(metadata.encoding_row_raw_v1_pages as int),
    );
    let w4 = w3.kv_num("encoding_row_raw_v1_pages"@, metadata.encoding_row_raw_v1_pages as int);
    toml::values_are_said(
        w4,
        "encoding_columnar_basic_v1_pages"@,
        number::integer_text(metadata.encoding_columnar_basic_v1_pages as int),
    );
    let w5 = w4.kv_num(
        "encoding_columnar_basic_v1_pages"@,
        metadata.encoding_columnar_basic_v1_pages as int,
    );
    toml::values_are_said(
        w5,
        "encoding_columnar_delta_v1_pages"@,
        number::integer_text(metadata.encoding_columnar_delta_v1_pages as int),
    );
    let w6 = w5.kv_num(
        "encoding_columnar_delta_v1_pages"@,
        metadata.encoding_columnar_delta_v1_pages as int,
    );
    assert(w6 == page_stats_doc(w, metadata));
}

/// The bytes and the quotients of compression stand in the summary under their names, each quotient
/// where there is something to divide by.
pub proof fn compression_is_said(w: TomlModel, metadata: V2Metadata, ratios: StorageRatios)
    requires
        !w.color,
    ensures
        ({
            let said = compression_doc(w, metadata, ratios);
            &&& said.color == w.color
            &&& said.says_number("compressed_payload_bytes"@, metadata.compressed_total as int)
            &&& said.says_number("uncompressed_payload_bytes"@, metadata.uncompressed_total as int)
            &&& (metadata.codec_zstd_pages > 0 || metadata.codec_lz4_pages > 0) ==> (said.says(
                "average_frames_per_compressed_page"@,
                number::toml_float(ratios.average_frames_per_compressed_page@),
            ))
            &&& (metadata.uncompressed_total > 0) ==> (said.says(
                "payload_ratio"@,
                number::toml_float(ratios.payload_ratio@),
            ))
            &&& (metadata.uncompressed_total > 0) ==> (said.says(
                "physical_ratio"@,
                number::toml_float(ratios.physical_ratio@),
            ))
        }),
{
    toml::values_are_said(
        w,
        "compressed_payload_bytes"@,
        number::integer_text(metadata.compressed_total as int),
    );
    let w1 = w.kv_num("compressed_payload_bytes"@, metadata.compressed_total as int);
    toml::values_are_said(
        w1,
        "uncompressed_payload_bytes"@,
        number::integer_text(metadata.uncompressed_total as int),
    );
    let w2 = w1.kv_num("uncompressed_payload_bytes"@, metadata.uncompressed_total as int);
    let w3 = if metadata.codec_zstd_pages > 0 || metadata.codec_lz4_pages > 0 {
        toml::values_are_said(
            w2,
            "average_frames_per_compressed_page"@,
            number::toml_float(ratios.average_frames_per_compressed_page@),
        );
        let w4 = w2.kv_float(
            "average_frames_per_compressed_page"@,
            ratios.average_frames_per_compressed_page@,
        );
        w4
    } else {
        w2
    };
    let w5 = if metadata.uncompressed_total > 0 {
        toml::values_are_said(w3, "payload_ratio"@, number::toml_float(ratios.payload_ratio@));
        let w6 = w3.kv_float("payload_ratio"@, ratios.payload_ratio@);
        toml::values_are_said(w6, "physical_ratio"@, number::toml_float(ratios.physical_ratio@));
        let w7 = w6.kv_float("physical_ratio"@, ratios.physical_ratio@);
        w7
    } else {
        w3
    };
    assert(w5 == compression_doc(w, metadata, ratios));
}

/// The settings that files were written with stand in the summary under their names.
pub proof fn parameters_are_said(w: TomlModel, summary: CommonSummary<'_>)
    requires
        !w.color,
    ensures
        ({
            let said = parameters_doc(w, summary);
            &&& said.color == w.color
            &&& said.says_text(
                "target_format"@,
                options::format_name_text(summary.storage.version()),
            )
            &&& said.says_number("key_field_index"@, summary.key_field_index as int)
            &&& summary.page_size matches Some(page_size) ==> (said.says_number(
                "page_size"@,
                page_size as int,
            ))
            &&& summary.parallelism matches Some(parallelism) ==> (said.says_number(
                "parallelism"@,
                parallelism as int,
            ))
            &&& summary.write matches Some(write) ==> (said.says_text("codec"@, write.codec.word()))
            &&& summary.write matches Some(write) ==> (said.says_text(
                "encoding"@,
                write.encoding.word(),
            ))
            &&& summary.write matches Some(write) ==> (said.says_number(
                "zstd_level"@,
                write.zstd_level as int,
            ))
            &&& summary.write matches Some(write) ==> (said.says_truth(
                "compress_partial_page"@,
                write.compress_partial_page,
            ))
            &&& summary.write matches Some(write) ==> (said.says_text(
                "page_packing"@,
                write.page_packing.word(),
            ))
            &&& said.says_truth("verify"@, summary.verified)
        }),
{
    toml::headings_keep_what_is_said(w, "parameters"@);
    let w1 = w.section("parameters"@);
    toml::texts_are_said(
        w1,
        "target_format"@,
        options::format_name_text(summary.storage.version()),
    );
    let w2 = w1.kv_str("target_format"@, options::format_name_text(summary.storage.version()));
    toml::values_are_said(
        w2,
        "key_field_index"@,
        number::integer_text(summary.key_field_index as int),
    );
    let w3 = w2.kv_num("key_field_index"@, summary.key_field_index as int);
    let w4 = match summary.page_size {
        Some(page_size) => {
            toml::values_are_said(w3, "page_size"@, number::integer_text(page_size as int));
            let w5 = w3.kv_num("page_size"@, page_size as int);
            w5
        },
        None => w3,
    };
    let w6 = match summary.parallelism {
        Some(parallelism) => {
            toml::values_are_said(w4, "parallelism"@, number::integer_text(parallelism as int));
            let w7 = w4.kv_num("parallelism"@, parallelism as int);
            w7
        },
        None => w4,
    };
    let w8 = match summary.write {
        Some(write) => {
            toml::texts_are_said(w6, "codec"@, write.codec.word());
            let w9 = w6.kv_str("codec"@, write.codec.word());
            toml::texts_are_said(w9, "encoding"@, write.encoding.word());
            let w10 = w9.kv_str("encoding"@, write.encoding.word());
            toml::values_are_said(
                w10,
                "zstd_level"@,
                number::integer_text(write.zstd_level as int),
            );
            let w11 = w10.kv_num("zstd_level"@, write.zstd_level as int);
            toml::values_are_said(
                w11,
                "compress_partial_page"@,
                if write.compress_partial_page { "true"@ } else { "false"@ },
            );
            let w12 = w11.kv_bool("compress_partial_page"@, write.compress_partial_page);
            toml::texts_are_said(w12, "page_packing"@, write.page_packing.word());
            let w13 = w12.kv_str("page_packing"@, write.page_packing.word());
            w13
        },
        None => w6,
    };
    toml::values_are_said(w8, "verify"@, if summary.verified { "true"@ } else { "false"@ });
    let w14 = w8.kv_bool("verify"@, summary.verified);
    assert(w14 == parameters_doc(w, summary));
}

/// What a command did stands in the summary under its names: how many files it read, how many frames
/// and pages it wrote, and whether they were verified.
pub proof fn results_are_said(w: TomlModel, result: OperationResult<'_>)
    requires
        !w.color,
    ensures
        ({
            let said = operation_result_doc(w, result);
            &&& said.color == w.color
            &&& said.says_text(
                "target_format"@,
                options::format_name_text(result.storage.version()),
            )
            &&& result.input matches Some(input) ==> (said.says_text("input"@, input@))
            &&& said.says_text("output"@, result.output@)
            &&& said.says_number("input_count"@, result.input_count as int)
            &&& said.says_number("frames"@, result.storage.frames() as int)
            &&& result.storage matches StorageSummary::V2(metadata) ==> said.says_number(
                "pages"@,
                metadata.page_count as int,
            )
            &&& said.says_truth("verified"@, result.verified)
            &&& said.says("elapsed_seconds"@, number::toml_float(result.elapsed_seconds@))
        }),
{
    toml::headings_keep_what_is_said(w, result.section@);
    let w1 = w.section(result.section@);
    toml::texts_are_said(w1, "target_format"@, options::format_name_text(result.storage.version()));
    let w2 = w1.kv_str("target_format"@, options::format_name_text(result.storage.version()));
    let w3 = match result.input {
        Some(input) => {
            toml::texts_are_said(w2, "input"@, input@);
            let w4 = w2.kv_str("input"@, input@);
            w4
        },
        None => w2,
    };
    toml::texts_are_said(w3, "output"@, result.output@);
    let w5 = w3.kv_str("output"@, result.output@);
    toml::values_are_said(w5, "input_count"@, number::integer_text(result.input_count as int));
    let w6 = w5.kv_num("input_count"@, result.input_count as int);
    toml::values_are_said(w6, "frames"@, number::integer_text(result.storage.frames() as int));
    let w7 = w6.kv_num("frames"@, result.storage.frames() as int);
    let last = match result.storage {
        StorageSummary::V1 { .. } => w7,
        StorageSummary::V2(metadata) => {
            toml::values_are_said(
                w7,
                "pages"@,
                number::integer_text(metadata.page_count as int),
            );
            w7.kv_num("pages"@, metadata.page_count as int)
        },
    };
    let verification = if result.verified {
        "completed"@
    } else {
        "skipped (run `fwob verify` or pass verify)"@
    };
    toml::values_are_said(
        last,
        "verified"@,
        if result.verified {
            "true"@
        } else {
            "false"@
        },
    );
    let told = last.kv_bool("verified"@, result.verified);
    toml::texts_are_said(told, "verification"@, verification);
    let timed = told.kv_str("verification"@, verification);
    toml::values_are_said(
        timed,
        "elapsed_seconds"@,
        number::toml_float(result.elapsed_seconds@),
    );
    assert(timed.kv_float("elapsed_seconds"@, result.elapsed_seconds@) == operation_result_doc(
        w,
        result,
    ));
}

/// Files that are not compressed are printed as such: what their frames take up is the same before
/// and after.
pub proof fn v1_files_are_not_compressed(w: TomlModel, summary: CommonSummary<'_>)
    requires
        !w.color,
        summary.storage is V1,
    ensures
        compression_section(w, summary).says_number(
            "compressed_payload_bytes"@,
            summary.storage->raw_bytes as int,
        ),
        compression_section(w, summary).says_number(
            "uncompressed_payload_bytes"@,
            summary.storage->raw_bytes as int,
        ),
        summary.storage->raw_bytes > 0 ==> compression_section(w, summary).says(
            "payload_ratio"@,
            number::toml_float("1.0000"@),
        ),
{
    let raw = summary.storage->raw_bytes as int;
    toml::headings_keep_what_is_said(w, "compression"@);
    let w1 = w.section("compression"@);
    toml::values_are_said(w1, "compressed_payload_bytes"@, number::integer_text(raw));
    let w2 = w1.kv_num("compressed_payload_bytes"@, raw);
    toml::values_are_said(w2, "uncompressed_payload_bytes"@, number::integer_text(raw));
    let w3 = w2.kv_num("uncompressed_payload_bytes"@, raw);
    toml::values_are_said(w3, "payload_ratio"@, number::toml_float("1.0000"@));
    let w4 = w3.kv_float("payload_ratio"@, "1.0000"@);
    toml::values_are_said(
        w4,
        "physical_ratio"@,
        number::toml_float(summary.ratios.physical_ratio@),
    );
}

/// A span starts with its first number and ends with its last.
pub proof fn spans_run_from_first_to_last(first: int, last: int)
    ensures
        number::integer_text(first).is_prefix_of(span_text(first, last)),
        text::has_suffix(span_text(first, last), number::integer_text(last)),
        span_text(first, last).len() == number::integer_text(first).len() + 2
            + number::integer_text(last).len(),
{
    reveal_strlit("..");
    let span = span_text(first, last);
    let end = number::integer_text(last);
    assert(span.skip(span.len() - end.len()) == end);
}

} // verus!

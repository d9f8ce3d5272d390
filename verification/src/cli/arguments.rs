//! The words that the commands know, as values.

use crate::options;
use crate::options::{
    Codec, CodecSelection, DeletionPacking, Encoding, EncodingSelection, FormatVersion,
    PageOptions, PagePacking, DEFAULT_ZSTD_LEVEL,
};
use crate::text;
use vstd::prelude::*;

verus! {

/// The format that a command writes.
#[derive(Debug, Clone, Copy, PartialEq, Eq, Structural)]
pub enum TargetFormat {
    V1,
    V2,
}

/// The format that a command writes where none is asked for.
pub const DEFAULT_TARGET_FORMAT: TargetFormat = TargetFormat::V2;

impl TargetFormat {
    /// The format version of the files that are written.
    pub open spec fn version(self) -> FormatVersion {
        match self {
            TargetFormat::V1 => FormatVersion::V1,
            TargetFormat::V2 => FormatVersion::V2,
        }
    }

    /// The format version of the files that are written.
    pub fn format_version(self) -> (result: FormatVersion)
        ensures
            result == self.version(),
    {
        match self {
            TargetFormat::V1 => FormatVersion::V1,
            TargetFormat::V2 => FormatVersion::V2,
        }
    }
}

/// What a benchmark measures.
#[derive(Debug, Clone, Copy, PartialEq, Eq, Structural)]
pub enum BenchMode {
    ConversionMatrix,
    Range,
    RandomPage,
    Scan,
}

impl BenchMode {
    /// The word for this mode.
    pub open spec fn word(self) -> Seq<char> {
        match self {
            BenchMode::ConversionMatrix => "conversion-matrix"@,
            BenchMode::Range => "range"@,
            BenchMode::RandomPage => "random-page"@,
            BenchMode::Scan => "scan"@,
        }
    }

    /// The word for this mode.
    pub fn as_str(self) -> (result: &'static str)
        ensures
            result@ == self.word(),
    {
        match self {
            BenchMode::ConversionMatrix => "conversion-matrix",
            BenchMode::Range => "range",
            BenchMode::RandomPage => "random-page",
            BenchMode::Scan => "scan",
        }
    }
}

/// The codec that a command was asked for.
#[derive(Debug, Clone, Copy, PartialEq, Eq, Structural)]
pub enum CodecArg {
    Uncompressed,
    Zstd,
    Lz4,
    Smallest,
}

impl CodecArg {
    /// The word for this codec.
    pub open spec fn word(self) -> Seq<char> {
        match self {
            CodecArg::Uncompressed => "uncompressed"@,
            CodecArg::Zstd => "zstd"@,
            CodecArg::Lz4 => "lz4"@,
            CodecArg::Smallest => "smallest"@,
        }
    }

    /// The codec that pages start out with.
    pub open spec fn leading(self) -> Codec {
        match self {
            CodecArg::Uncompressed => Codec::Uncompressed,
            CodecArg::Zstd | CodecArg::Smallest => Codec::Zstd,
            CodecArg::Lz4 => Codec::Lz4,
        }
    }

    /// Whether the codec is held to one, or picked by size.
    pub open spec fn choice(self) -> CodecSelection {
        match self {
            CodecArg::Smallest => CodecSelection::Smallest,
            other => CodecSelection::Fixed(other.leading()),
        }
    }

    /// The word for this codec.
    pub fn as_str(self) -> (result: &'static str)
        ensures
            result@ == self.word(),
    {
        match self {
            CodecArg::Uncompressed => "uncompressed",
            CodecArg::Zstd => "zstd",
            CodecArg::Lz4 => "lz4",
            CodecArg::Smallest => "smallest",
        }
    }

    /// The codec that pages start out with.
    pub fn codec(self) -> (result: Codec)
        ensures
            result == self.leading(),
    {
        match self {
            CodecArg::Uncompressed => Codec::Uncompressed,
            CodecArg::Zstd | CodecArg::Smallest => Codec::Zstd,
            CodecArg::Lz4 => Codec::Lz4,
        }
    }

    /// Whether the codec is held to one, or picked by size.
    pub fn selection(self) -> (result: CodecSelection)
        ensures
            result == self.choice(),
    {
        match self {
            CodecArg::Uncompressed => CodecSelection::Fixed(Codec::Uncompressed),
            CodecArg::Zstd => CodecSelection::Fixed(Codec::Zstd),
            CodecArg::Lz4 => CodecSelection::Fixed(Codec::Lz4),
            CodecArg::Smallest => CodecSelection::Smallest,
        }
    }
}

/// The encoding that a command was asked for.
#[derive(Debug, Clone, Copy, PartialEq, Eq, Structural)]
pub enum EncodingArg {
    RowRaw,
    ColumnarBasic,
    ColumnarDelta,
    Smallest,
}

impl EncodingArg {
    /// The word for this encoding.
    pub open spec fn word(self) -> Seq<char> {
        match self {
            EncodingArg::RowRaw => "row-raw"@,
            EncodingArg::ColumnarBasic => "columnar-basic"@,
            EncodingArg::ColumnarDelta => "columnar-delta"@,
            EncodingArg::Smallest => "smallest"@,
        }
    }

    /// The encoding that pages start out with.
    pub open spec fn leading(self) -> Encoding {
        match self {
            EncodingArg::RowRaw => Encoding::RowRawV1,
            EncodingArg::ColumnarBasic => Encoding::ColumnarBasicV1,
            EncodingArg::ColumnarDelta | EncodingArg::Smallest => Encoding::ColumnarDeltaV1,
        }
    }

    /// Whether the encoding is held to one, or picked by size.
    pub open spec fn choice(self) -> EncodingSelection {
        match self {
            EncodingArg::Smallest => EncodingSelection::Smallest,
            other => EncodingSelection::Fixed(other.leading()),
        }
    }

    /// The word for this encoding.
    pub fn as_str(self) -> (result: &'static str)
        ensures
            result@ == self.word(),
    {
        match self {
            EncodingArg::RowRaw => "row-raw",
            EncodingArg::ColumnarBasic => "columnar-basic",
            EncodingArg::ColumnarDelta => "columnar-delta",
            EncodingArg::Smallest => "smallest",
        }
    }

    /// The encoding that pages start out with.
    pub fn encoding(self) -> (result: Encoding)
        ensures
            result == self.leading(),
    {
        match self {
            EncodingArg::RowRaw => Encoding::RowRawV1,
            EncodingArg::ColumnarBasic => Encoding::ColumnarBasicV1,
            EncodingArg::ColumnarDelta | EncodingArg::Smallest => Encoding::ColumnarDeltaV1,
        }
    }

    /// Whether the encoding is held to one, or picked by size.
    pub fn selection(self) -> (result: EncodingSelection)
        ensures
            result == self.choice(),
    {
        match self {
            EncodingArg::RowRaw => EncodingSelection::Fixed(Encoding::RowRawV1),
            EncodingArg::ColumnarBasic => EncodingSelection::Fixed(Encoding::ColumnarBasicV1),
            EncodingArg::ColumnarDelta => EncodingSelection::Fixed(Encoding::ColumnarDeltaV1),
            EncodingArg::Smallest => EncodingSelection::Smallest,
        }
    }
}

/// The page packing that a command was asked for.
#[derive(Debug, Clone, Copy, PartialEq, Eq, Structural)]
pub enum PagePackingArg {
    EstimateShrink,
    TightFit,
}

impl PagePackingArg {
    /// The word for this packing.
    pub open spec fn word(self) -> Seq<char> {
        match self {
            PagePackingArg::EstimateShrink => "estimate-shrink"@,
            PagePackingArg::TightFit => "tight-fit"@,
        }
    }

    /// The packing of the written pages.
    pub open spec fn packing(self) -> PagePacking {
        match self {
            PagePackingArg::EstimateShrink => PagePacking::EstimateShrink,
            PagePackingArg::TightFit => PagePacking::TightFit,
        }
    }

    /// The word for this packing.
    pub fn as_str(self) -> (result: &'static str)
        ensures
            result@ == self.word(),
    {
        match self {
            PagePackingArg::EstimateShrink => "estimate-shrink",
            PagePackingArg::TightFit => "tight-fit",
        }
    }

    /// The packing of the written pages.
    pub fn page_packing(self) -> (result: PagePacking)
        ensures
            result == self.packing(),
    {
        match self {
            PagePackingArg::EstimateShrink => PagePacking::EstimateShrink,
            PagePackingArg::TightFit => PagePacking::TightFit,
        }
    }
}

/// The deletion packing that a command was asked for.
#[derive(Debug, Clone, Copy, PartialEq, Eq, Structural)]
pub enum DeletionPackingArg {
    LocalRepack,
    RepackToEnd,
}

impl DeletionPackingArg {
    /// The word for this deletion packing.
    pub open spec fn word(self) -> Seq<char> {
        match self {
            DeletionPackingArg::LocalRepack => "local-repack"@,
            DeletionPackingArg::RepackToEnd => "repack-to-end"@,
        }
    }

    /// The deletion packing of the edited file.
    pub open spec fn packing(self) -> DeletionPacking {
        match self {
            DeletionPackingArg::LocalRepack => DeletionPacking::LocalRepack,
            DeletionPackingArg::RepackToEnd => DeletionPacking::RepackToEnd,
        }
    }

    /// The word for this deletion packing.
    pub fn as_str(self) -> (result: &'static str)
        ensures
            result@ == self.word(),
    {
        match self {
            DeletionPackingArg::LocalRepack => "local-repack",
            DeletionPackingArg::RepackToEnd => "repack-to-end",
        }
    }

    /// The deletion packing of the edited file.
    pub fn deletion_packing(self) -> (result: DeletionPacking)
        ensures
            result == self.packing(),
    {
        match self {
            DeletionPackingArg::LocalRepack => DeletionPacking::LocalRepack,
            DeletionPackingArg::RepackToEnd => DeletionPacking::RepackToEnd,
        }
    }
}

/// The write settings that are options rather than words.
#[derive(Debug, Clone, Copy, PartialEq, Eq, Structural)]
pub struct V2WriteArgs {
    pub zstd_level: i32,
}

/// The write settings of a command, with its defaults filled in.
#[derive(Debug, Clone, Copy, PartialEq, Eq, Structural)]
pub struct V2WriteOptions {
    pub codec: CodecArg,
    pub encoding: EncodingArg,
    pub zstd_level: i32,
    pub compress_partial_page: bool,
    pub page_packing: PagePackingArg,
    pub verify: bool,
}

impl V2WriteOptions {
    /// The settings where no word was given: zstd, columnar-basic, estimate-shrink.
    pub open spec fn defaults(zstd_level: i32) -> Self {
        V2WriteOptions {
            codec: CodecArg::Zstd,
            encoding: EncodingArg::ColumnarBasic,
            zstd_level,
            compress_partial_page: false,
            page_packing: PagePackingArg::EstimateShrink,
            verify: false,
        }
    }

    /// The page options that these settings ask for.
    pub open spec fn page_options_for(self, page_size: u32) -> PageOptions {
        PageOptions {
            page_size,
            codec: self.codec.leading(),
            codec_selection: self.codec.choice(),
            zstd_level: self.zstd_level,
            encoding: self.encoding.leading(),
            encoding_selection: self.encoding.choice(),
            compress_partial_page: self.compress_partial_page,
            page_packing: self.page_packing.packing(),
        }
    }

    /// The settings where no word was given: zstd, columnar-basic, estimate-shrink.
    pub fn from_args(args: V2WriteArgs) -> (result: Self)
        ensures
            result == Self::defaults(args.zstd_level),
    {
        V2WriteOptions {
            codec: CodecArg::Zstd,
            encoding: EncodingArg::ColumnarBasic,
            zstd_level: args.zstd_level,
            compress_partial_page: false,
            page_packing: PagePackingArg::EstimateShrink,
            verify: false,
        }
    }

    /// The page options that these settings ask for.
    pub fn page_options(self, page_size: u32) -> (result: PageOptions)
        ensures
            result == self.page_options_for(page_size),
    {
        PageOptions {
            page_size,
            codec: self.codec.codec(),
            codec_selection: self.codec.selection(),
            zstd_level: self.zstd_level,
            encoding: self.encoding.encoding(),
            encoding_selection: self.encoding.selection(),
            compress_partial_page: self.compress_partial_page,
            page_packing: self.page_packing.page_packing(),
        }
    }
}

/// The defaults of the commands are those of the format.
pub proof fn write_defaults_agree()
    ensures
        V2WriteOptions::defaults(DEFAULT_ZSTD_LEVEL).page_options_for(options::DEFAULT_PAGE_SIZE)
            == options::default_page_options(),
{
}

/// The benchmark mode that a word names.
pub open spec fn bench_mode(word: Seq<char>) -> Option<BenchMode> {
    if word == "conversion-matrix"@ {
        Some(BenchMode::ConversionMatrix)
    } else if word == "range"@ {
        Some(BenchMode::Range)
    } else if word == "random-page"@ {
        Some(BenchMode::RandomPage)
    } else if word == "scan"@ {
        Some(BenchMode::Scan)
    } else {
        None
    }
}

/// The format that a word names.
pub open spec fn target_format(word: Seq<char>) -> Option<TargetFormat> {
    if word == "v1"@ {
        Some(TargetFormat::V1)
    } else if word == "v2"@ {
        Some(TargetFormat::V2)
    } else {
        None
    }
}

/// The benchmark mode that a word names, letter for letter.
pub fn match_bench_mode(value: &str) -> (result: Option<BenchMode>)
    ensures
        result == bench_mode(value@),
{
    if text::same(value, "conversion-matrix") {
        Some(BenchMode::ConversionMatrix)
    } else if text::same(value, "range") {
        Some(BenchMode::Range)
    } else if text::same(value, "random-page") {
        Some(BenchMode::RandomPage)
    } else if text::same(value, "scan") {
        Some(BenchMode::Scan)
    } else {
        None
    }
}

/// The format that a word names, letter for letter.
pub fn match_target_format(value: &str) -> (result: Option<TargetFormat>)
    ensures
        result == target_format(value@),
{
    if text::same(value, "v1") {
        Some(TargetFormat::V1)
    } else if text::same(value, "v2") {
        Some(TargetFormat::V2)
    } else {
        None
    }
}

/// The word of a mode names that mode.
pub proof fn bench_mode_reads_back(mode: BenchMode)
    ensures
        bench_mode(mode.word()) == Some(mode),
{
    reveal_strlit("conversion-matrix");
    reveal_strlit("range");
    reveal_strlit("random-page");
    reveal_strlit("scan");
    assert("conversion-matrix"@.len() == 17);
    assert("range"@.len() == 5);
    assert("random-page"@.len() == 11);
    assert("scan"@.len() == 4);
}

/// Pages are encoded as the word says: each encoding is what exactly one word asks for, and every
/// page starts out with the encoding that it is held to.
pub proof fn encodings_are_what_they_are_called(encoding: EncodingArg)
    ensures
        encoding.word() == "row-raw"@ <==> encoding.choice() == EncodingSelection::Fixed(
            Encoding::RowRawV1,
        ),
        encoding.word() == "columnar-basic"@ <==> encoding.choice() == EncodingSelection::Fixed(
            Encoding::ColumnarBasicV1,
        ),
        encoding.word() == "columnar-delta"@ <==> encoding.choice() == EncodingSelection::Fixed(
            Encoding::ColumnarDeltaV1,
        ),
        encoding.word() == "smallest"@ <==> encoding.choice() == EncodingSelection::Smallest,
        encoding.choice() matches EncodingSelection::Fixed(held) ==> encoding.leading() == held,
{
    reveal_strlit("row-raw");
    assert("row-raw"@.len() == 7);
    reveal_strlit("columnar-basic");
    assert("columnar-basic"@.len() == 14);
    reveal_strlit("columnar-delta");
    assert("columnar-delta"@.len() == 14);
    reveal_strlit("smallest");
    assert("smallest"@.len() == 8);
    assert("columnar-basic"@[9] == 'b');
    assert("columnar-delta"@[9] == 'd');
}

/// Two words for an encoding never ask for the same.
pub proof fn encodings_differ(first: EncodingArg, second: EncodingArg)
    ensures
        first.choice() == second.choice() ==> first == second,
        first.word() == second.word() ==> first == second,
{
    encodings_are_what_they_are_called(first);
    encodings_are_what_they_are_called(second);
}

/// Pages are compressed as the word says: each codec is what exactly one word asks for, and every
/// page starts out with the codec that it is held to.
pub proof fn codecs_are_what_they_are_called(codec: CodecArg)
    ensures
        codec.word() == "uncompressed"@ <==> codec.choice() == CodecSelection::Fixed(
            Codec::Uncompressed,
        ),
        codec.word() == "zstd"@ <==> codec.choice() == CodecSelection::Fixed(Codec::Zstd),
        codec.word() == "lz4"@ <==> codec.choice() == CodecSelection::Fixed(Codec::Lz4),
        codec.word() == "smallest"@ <==> codec.choice() == CodecSelection::Smallest,
        codec.choice() matches CodecSelection::Fixed(held) ==> codec.leading() == held,
{
    reveal_strlit("uncompressed");
    assert("uncompressed"@.len() == 12);
    reveal_strlit("zstd");
    assert("zstd"@.len() == 4);
    reveal_strlit("lz4");
    assert("lz4"@.len() == 3);
    reveal_strlit("smallest");
    assert("smallest"@.len() == 8);
}

/// Two words for a codec never ask for the same.
pub proof fn codecs_differ(first: CodecArg, second: CodecArg)
    ensures
        first.choice() == second.choice() ==> first == second,
        first.word() == second.word() ==> first == second,
{
    codecs_are_what_they_are_called(first);
    codecs_are_what_they_are_called(second);
}

/// Pages are packed as the word says, when they are written and when frames are deleted.
pub proof fn packings_are_what_they_are_called(
    packing: PagePackingArg,
    deletion: DeletionPackingArg,
)
    ensures
        packing.word() == "estimate-shrink"@ <==> packing.packing() == PagePacking::EstimateShrink,
        packing.word() == "tight-fit"@ <==> packing.packing() == PagePacking::TightFit,
        deletion.word() == "local-repack"@ <==> deletion.packing() == DeletionPacking::LocalRepack,
        deletion.word() == "repack-to-end"@ <==> deletion.packing() == DeletionPacking::RepackToEnd,
{
    reveal_strlit("estimate-shrink");
    assert("estimate-shrink"@.len() == 15);
    reveal_strlit("tight-fit");
    assert("tight-fit"@.len() == 9);
    reveal_strlit("local-repack");
    assert("local-repack"@.len() == 12);
    reveal_strlit("repack-to-end");
    assert("repack-to-end"@.len() == 13);
}

/// The word for a format names the version that is written, and no other word names one.
pub proof fn formats_are_what_they_are_called(word: Seq<char>)
    ensures
        word == "v1"@ <==> target_format(word) is Some && target_format(word)->0.version()
            == FormatVersion::V1,
        word == "v2"@ <==> target_format(word) is Some && target_format(word)->0.version()
            == FormatVersion::V2,
{
    reveal_strlit("v1");
    assert("v1"@.len() == 2);
    reveal_strlit("v2");
    assert("v2"@.len() == 2);
    assert("v1"@[1] == '1');
    assert("v2"@[1] == '2');
}

/// What is asked for reaches the pages: commands that ask for different settings write with different
/// page options, and what a page is held to is what its options start out with.
pub proof fn settings_reach_the_pages(
    write: V2WriteOptions,
    other: V2WriteOptions,
    page_size: u32,
    other_size: u32,
)
    ensures
        write.page_options_for(page_size).page_size == page_size,
        write.page_options_for(page_size).zstd_level == write.zstd_level,
        write.page_options_for(page_size).compress_partial_page == write.compress_partial_page,
        write.page_options_for(page_size).encoding_selection == write.encoding.choice(),
        write.page_options_for(page_size).codec_selection == write.codec.choice(),
        write.page_options_for(page_size).page_packing == write.page_packing.packing(),
        write.page_options_for(page_size).codec_selection matches CodecSelection::Fixed(held)
            ==> write.page_options_for(page_size).codec == held,
        write.page_options_for(page_size).encoding_selection matches EncodingSelection::Fixed(held)
            ==> write.page_options_for(page_size).encoding == held,
        write.page_options_for(page_size) == other.page_options_for(other_size) ==> page_size
            == other_size && write == (V2WriteOptions { verify: write.verify, ..other }),
{
    codecs_differ(write.codec, other.codec);
    encodings_differ(write.encoding, other.encoding);
}

/// Where the smallest page is picked, pages start out as if zstd and columnar-delta had been asked
/// for; they are held to neither.
pub proof fn the_smallest_starts_from_zstd_and_delta()
    ensures
        CodecArg::Smallest.leading() == CodecArg::Zstd.leading(),
        CodecArg::Smallest.choice() != CodecArg::Zstd.choice(),
        EncodingArg::Smallest.leading() == EncodingArg::ColumnarDelta.leading(),
        EncodingArg::Smallest.choice() != EncodingArg::ColumnarDelta.choice(),
{
}

} // verus!

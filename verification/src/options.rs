//! Format versions and the settings that readers, writers and editors are opened with.

use crate::error::{Error, Failure};
use vstd::prelude::*;
use vstd::string::*;

verus! {

/// The two versions of the file format.
#[derive(Debug, Clone, Copy, PartialEq, Eq, Structural)]
pub enum FormatVersion {
    V1,
    V2,
}

/// What the pages of a v2 file are compressed with.
#[derive(Debug, Clone, Copy, PartialEq, Eq, Structural)]
pub enum Codec {
    Uncompressed,
    Zstd,
    Lz4,
}

/// How a writer picks the codec of a page.
#[derive(Debug, Clone, Copy, PartialEq, Eq, Structural)]
pub enum CodecSelection {
    Fixed(Codec),
    Smallest,
}

/// How the frames of a page are laid out before compression.
#[derive(Debug, Clone, Copy, PartialEq, Eq, Structural)]
pub enum Encoding {
    RowRawV1,
    ColumnarBasicV1,
    ColumnarDeltaV1,
}

/// How a writer picks the encoding of a page.
#[derive(Debug, Clone, Copy, PartialEq, Eq, Structural)]
pub enum EncodingSelection {
    Fixed(Encoding),
    Smallest,
}

/// How a writer decides how many frames go into a compressed page.
#[derive(Debug, Clone, Copy, PartialEq, Eq, Structural)]
pub enum PagePacking {
    EstimateShrink,
    TightFit,
}

/// Which pages a deletion in a v2 file packs anew.
#[derive(Debug, Clone, Copy, PartialEq, Eq, Structural)]
pub enum DeletionPacking {
    /// The pages that hold deleted frames, and the pages behind them only as needed.
    LocalRepack,
    /// Every page from the first deleted frame on.
    RepackToEnd,
}

impl Default for DeletionPacking {
    fn default() -> (result: Self)
        ensures
            result == DeletionPacking::LocalRepack,
    {
        DeletionPacking::LocalRepack
    }
}

/// Page size of a new v2 file where none is asked for.
pub const DEFAULT_PAGE_SIZE: u32 = 524_288;

/// zstd level of newly written pages where none is asked for.
pub const DEFAULT_ZSTD_LEVEL: i32 = 6;

/// Codec of newly written pages where none is asked for.
pub const DEFAULT_CODEC: Codec = Codec::Zstd;

/// Encoding of newly written pages where none is asked for.
pub const DEFAULT_ENCODING: Encoding = Encoding::ColumnarBasicV1;

/// Packing of newly written pages where none is asked for.
pub const DEFAULT_PAGE_PACKING: PagePacking = PagePacking::EstimateShrink;

/// Length in bytes of the header of every v2 page.
pub const PAGE_HEADER_LEN: u32 = 80;

/// How a v1 file is read: v1 does not store which of its fields is the key.
#[derive(Debug, Clone, Copy, PartialEq, Eq, Structural)]
pub struct ReaderOptions {
    pub v1_key_field_index: usize,
}

impl Default for ReaderOptions {
    fn default() -> (result: Self)
        ensures
            result.v1_key_field_index == 0,
    {
        ReaderOptions { v1_key_field_index: 0 }
    }
}

/// How the pages of a v2 file are written.
#[derive(Debug, Clone, Copy, PartialEq, Eq, Structural)]
pub struct PageOptions {
    pub page_size: u32,
    pub codec: Codec,
    pub codec_selection: CodecSelection,
    pub zstd_level: i32,
    pub encoding: Encoding,
    pub encoding_selection: EncodingSelection,
    pub compress_partial_page: bool,
    pub page_packing: PagePacking,
}

/// The page options that hold where nothing is asked for.
pub open spec fn default_page_options() -> PageOptions {
    PageOptions {
        page_size: DEFAULT_PAGE_SIZE,
        codec: DEFAULT_CODEC,
        codec_selection: CodecSelection::Fixed(DEFAULT_CODEC),
        zstd_level: DEFAULT_ZSTD_LEVEL,
        encoding: DEFAULT_ENCODING,
        encoding_selection: EncodingSelection::Fixed(DEFAULT_ENCODING),
        compress_partial_page: false,
        page_packing: DEFAULT_PAGE_PACKING,
    }
}

/// `options` with the codec and the encoding held to those of a page.
pub open spec fn fixed_to_page(
    options: PageOptions,
    codec: Codec,
    encoding: Encoding,
) -> PageOptions {
    PageOptions {
        codec,
        codec_selection: CodecSelection::Fixed(codec),
        encoding,
        encoding_selection: EncodingSelection::Fixed(encoding),
        ..options
    }
}

impl PageOptions {
    /// The page options that hold where nothing is asked for.
    pub fn new() -> (result: Self)
        ensures
            result == default_page_options(),
    {
        PageOptions {
            page_size: DEFAULT_PAGE_SIZE,
            codec: DEFAULT_CODEC,
            codec_selection: CodecSelection::Fixed(DEFAULT_CODEC),
            zstd_level: DEFAULT_ZSTD_LEVEL,
            encoding: DEFAULT_ENCODING,
            encoding_selection: EncodingSelection::Fixed(DEFAULT_ENCODING),
            compress_partial_page: false,
            page_packing: DEFAULT_PAGE_PACKING,
        }
    }

    /// These options with the codec and the encoding held to those of a page.
    pub fn fixed_to(self, codec: Codec, encoding: Encoding) -> (result: Self)
        ensures
            result == fixed_to_page(self, codec, encoding),
    {
        let mut result: PageOptions = self;
        result.codec = codec;
        result.codec_selection = CodecSelection::Fixed(codec);
        result.encoding = encoding;
        result.encoding_selection = EncodingSelection::Fixed(encoding);
        result
    }
}

/// The settings that appending, editing and organizing share.
#[derive(Debug, Clone, Copy, PartialEq, Eq, Structural)]
pub struct OperationOptions {
    pub reader_options: ReaderOptions,
    /// `None` leaves the page options to what the file at hand was written with.
    pub v2: Option<PageOptions>,
    pub deletion_packing: DeletionPacking,
}

impl Default for OperationOptions {
    fn default() -> (result: Self)
        ensures
            result.reader_options.v1_key_field_index == 0,
            result.v2 is None,
            result.deletion_packing == DeletionPacking::LocalRepack,
    {
        OperationOptions {
            reader_options: ReaderOptions { v1_key_field_index: 0 },
            v2: None,
            deletion_packing: DeletionPacking::LocalRepack,
        }
    }
}

/// The settings that a writer is opened with.
pub type WriterOpenOptions = OperationOptions;

/// The settings that an editor is opened with.
pub type MutationOptions = OperationOptions;

/// The first bytes of a v1 file.
pub open spec fn v1_signature() -> Seq<u8> {
    seq![0x46u8, 0x57u8, 0x4Fu8, 0x42u8]
}

/// The first bytes of a v2 file.
pub open spec fn v2_signature() -> Seq<u8> {
    seq![0x46u8, 0x57u8, 0x42u8, 0x32u8]
}

/// The format version that the first four bytes of a file announce: `FWOB` for v1, `FWB2` for v2.
pub open spec fn announced_format(magic: Seq<u8>) -> Option<FormatVersion> {
    if magic == v1_signature() {
        Some(FormatVersion::V1)
    } else if magic == v2_signature() {
        Some(FormatVersion::V2)
    } else {
        None
    }
}

/// The format version that the first four bytes of a file announce.
pub fn format_of(magic: &[u8]) -> (result: Option<FormatVersion>)
    ensures
        result == announced_format(magic@),
{
    if magic.len() != 4 || magic[0] != 0x46 || magic[1] != 0x57 {
        return None;
    }
    if magic[2] == 0x4F && magic[3] == 0x42 {
        assert(magic@ == v1_signature());
        Some(FormatVersion::V1)
    } else if magic[2] == 0x42 && magic[3] == 0x32 {
        assert(magic@ == v2_signature());
        Some(FormatVersion::V2)
    } else {
        None
    }
}

/// The format version of the file at `path`, whose first four bytes are `magic`.
pub fn detect_format(path: &str, magic: &[u8]) -> (result: Result<FormatVersion, Error>)
    ensures
        match result {
            Ok(format) => announced_format(magic@) == Some(format),
            Err(error) => announced_format(magic@) is None && error@
                == Failure::UnsupportedFormat(path@),
        },
{
    match format_of(magic) {
        Some(format) => Ok(format),
        None => Err(Error::UnsupportedFormat(path.to_owned())),
    }
}

/// The name of a format version in summaries.
pub open spec fn format_name_text(format: FormatVersion) -> Seq<char> {
    match format {
        FormatVersion::V1 => "fwob-v1"@,
        FormatVersion::V2 => "fwob-v2"@,
    }
}

/// The name of a format version in summaries.
pub fn format_name(format: FormatVersion) -> (result: &'static str)
    ensures
        result@ == format_name_text(format),
{
    match format {
        FormatVersion::V1 => "fwob-v1",
        FormatVersion::V2 => "fwob-v2",
    }
}

/// The first bytes of a file spell its version: `FWOB` or `FWB2`, and nothing else is a file.
pub proof fn signatures_spell_the_version(magic: Seq<u8>)
    ensures
        announced_format(magic) == Some(FormatVersion::V1) <==> magic.len() == 4 && magic[0]
            == 'F' as u8 && magic[1] == 'W' as u8 && magic[2] == 'O' as u8 && magic[3] == 'B' as u8,
        announced_format(magic) == Some(FormatVersion::V2) <==> magic.len() == 4 && magic[0]
            == 'F' as u8 && magic[1] == 'W' as u8 && magic[2] == 'B' as u8 && magic[3] == '2' as u8,
{
    let v1 = v1_signature();
    let v2 = v2_signature();
    assert('F' as u8 == 0x46 && 'W' as u8 == 0x57 && 'O' as u8 == 0x4F && 'B' as u8 == 0x42
        && '2' as u8 == 0x32);
    assert(v1[2] != v2[2]);
    if magic.len() == 4 && magic[0] == 0x46 && magic[1] == 0x57 && magic[2] == 0x4F && magic[3]
        == 0x42 {
        assert(magic =~= v1);
    }
    if magic.len() == 4 && magic[0] == 0x46 && magic[1] == 0x57 && magic[2] == 0x42 && magic[3]
        == 0x32 {
        assert(magic =~= v2);
    }
}

/// The name of a format version ends in its number.
pub proof fn format_names_end_in_the_version(format: FormatVersion)
    ensures
        format_name_text(format).last() == '1' <==> format == FormatVersion::V1,
        format_name_text(format).last() == '2' <==> format == FormatVersion::V2,
{
    reveal_strlit("fwob-v1");
    reveal_strlit("fwob-v2");
}

/// Holding options to a page changes what pages are compressed with and how they are laid out, and
/// nothing else.
pub proof fn held_options_keep_the_rest(options: PageOptions, codec: Codec, encoding: Encoding)
    ensures
        ({
            let held = fixed_to_page(options, codec, encoding);
            &&& held.codec_selection == CodecSelection::Fixed(held.codec)
            &&& held.encoding_selection == EncodingSelection::Fixed(held.encoding)
            &&& held.codec == codec
            &&& held.encoding == encoding
            &&& held.page_size == options.page_size
            &&& held.zstd_level == options.zstd_level
            &&& held.compress_partial_page == options.compress_partial_page
            &&& held.page_packing == options.page_packing
        }),
{
}

} // verus!

//! Words that may stand anywhere among the arguments of a command.
//!
//! A word is known by its exact letters; everything else is a path. A word that another command
//! knows is never taken for a path: a file of that name is written with a directory in front.

use crate::cli::arguments;
use crate::cli::arguments::{
    match_bench_mode, match_target_format, CodecArg, DeletionPackingArg, EncodingArg,
    PagePackingArg, TargetFormat, V2WriteArgs, V2WriteOptions,
};
use crate::number;
use crate::options::{
    DeletionPacking, OperationOptions, ReaderOptions, DEFAULT_PAGE_SIZE, DEFAULT_ZSTD_LEVEL,
};
use crate::text;
use vstd::prelude::*;
use vstd::string::*;

verus! {

/// Which kinds of words a command knows.
#[derive(Debug, Clone, Copy, PartialEq, Eq, Structural)]
pub struct Allowed {
    pub format: bool,
    pub write: bool,
    pub page_size: bool,
    pub bench: bool,
    pub deletion_packing: bool,
}

/// What one argument is to a command.
pub enum Token {
    Format(TargetFormat),
    PageSize(u32),
    Codec(CodecArg),
    Encoding(EncodingArg),
    Smallest,
    PagePacking(PagePackingArg),
    Verify,
    CompressPartialPage,
    DeletionPacking(DeletionPackingArg),
    Path,
    Refused(Seq<char>),
}

/// What the arguments of a command say, all in all.
#[verifier::ext_equal]
pub struct Words {
    pub paths: Seq<Seq<char>>,
    pub format: Option<TargetFormat>,
    pub codec: Option<CodecArg>,
    pub encoding: Option<EncodingArg>,
    pub page_packing: Option<PagePackingArg>,
    pub deletion_packing: Option<DeletionPackingArg>,
    pub page_size: Option<u32>,
    pub verify: bool,
    pub compress_partial_page: bool,
}

/// The smallest page size in bytes.
pub const MIN_PAGE_SIZE: u64 = 1_024;

/// The largest page size in bytes.
pub const MAX_PAGE_SIZE: u64 = 16_777_216;

/// The digits and the unit of a page size such as `512KiB`.
pub open spec fn page_size_parts(value: Seq<char>) -> Option<(Seq<char>, nat)> {
    if text::has_suffix(value, "KiB"@) && number::all_digits(text::without_last(value, 3)) {
        Some((text::without_last(value, 3), 1_024))
    } else if text::has_suffix(value, "MiB"@) && number::all_digits(text::without_last(value, 3)) {
        Some((text::without_last(value, 3), 1_048_576))
    } else if text::has_suffix(value, "KB"@) && number::all_digits(text::without_last(value, 2)) {
        Some((text::without_last(value, 2), 1_000))
    } else if text::has_suffix(value, "MB"@) && number::all_digits(text::without_last(value, 2)) {
        Some((text::without_last(value, 2), 1_000_000))
    } else if text::has_suffix(value, "B"@) && number::all_digits(text::without_last(value, 1)) {
        Some((text::without_last(value, 1), 1))
    } else {
        None
    }
}

/// The page size that digits and a unit denote, or what is wrong with it.
pub open spec fn page_size_of(digits: Seq<char>, unit: nat) -> Result<u32, Seq<char>> {
    let amount = number::decimal_value(digits);
    if amount > u64::MAX {
        Err("number too large to fit in target type"@)
    } else if amount * unit > u64::MAX {
        Err("page size is too large"@)
    } else if MIN_PAGE_SIZE <= amount * unit <= MAX_PAGE_SIZE {
        Ok((amount * unit) as u32)
    } else {
        Err("page size must be between 1KiB and 16MiB"@)
    }
}

/// `None` where the value is not a page size at all.
pub open spec fn page_size_token(value: Seq<char>) -> Option<Result<u32, Seq<char>>> {
    match page_size_parts(value) {
        Some((digits, unit)) => Some(page_size_of(digits, unit)),
        None => None,
    }
}

/// The words of all commands.
pub open spec fn is_reserved(value: Seq<char>) -> bool {
    ||| value == "v1"@
    ||| value == "v2"@
    ||| value == "conversion-matrix"@
    ||| value == "range"@
    ||| value == "random-page"@
    ||| value == "scan"@
    ||| value == "uncompressed"@
    ||| value == "zstd"@
    ||| value == "lz4"@
    ||| value == "smallest"@
    ||| value == "row-raw"@
    ||| value == "columnar-basic"@
    ||| value == "columnar-delta"@
    ||| value == "estimate-shrink"@
    ||| value == "tight-fit"@
    ||| value == "verify"@
    ||| value == "compress-partial-page"@
    ||| value == "local-repack"@
    ||| value == "repack-to-end"@
}

/// The write setting that a word stands for.
pub open spec fn write_token(value: Seq<char>) -> Option<Token> {
    if value == "uncompressed"@ {
        Some(Token::Codec(CodecArg::Uncompressed))
    } else if value == "zstd"@ {
        Some(Token::Codec(CodecArg::Zstd))
    } else if value == "lz4"@ {
        Some(Token::Codec(CodecArg::Lz4))
    } else if value == "row-raw"@ {
        Some(Token::Encoding(EncodingArg::RowRaw))
    } else if value == "columnar-basic"@ {
        Some(Token::Encoding(EncodingArg::ColumnarBasic))
    } else if value == "columnar-delta"@ {
        Some(Token::Encoding(EncodingArg::ColumnarDelta))
    } else if value == "smallest"@ {
        Some(Token::Smallest)
    } else if value == "estimate-shrink"@ {
        Some(Token::PagePacking(PagePackingArg::EstimateShrink))
    } else if value == "tight-fit"@ {
        Some(Token::PagePacking(PagePackingArg::TightFit))
    } else if value == "verify"@ {
        Some(Token::Verify)
    } else if value == "compress-partial-page"@ {
        Some(Token::CompressPartialPage)
    } else {
        None
    }
}

/// The deletion packing that a word stands for.
pub open spec fn deletion_token(value: Seq<char>) -> Option<Token> {
    if value == "local-repack"@ {
        Some(Token::DeletionPacking(DeletionPackingArg::LocalRepack))
    } else if value == "repack-to-end"@ {
        Some(Token::DeletionPacking(DeletionPackingArg::RepackToEnd))
    } else {
        None
    }
}

/// What one argument is to a command that knows the kinds of words in `allowed`.
pub open spec fn token_of(value: Seq<char>, allowed: Allowed) -> Token {
    if allowed.format && arguments::target_format(value) is Some {
        Token::Format(arguments::target_format(value)->0)
    } else if allowed.bench && arguments::bench_mode(value) is Some {
        Token::Refused("bench mode token '"@ + value + "' is not valid in this position"@)
    } else if let Some(size) = page_size_token(value) {
        if !allowed.page_size {
            Token::Refused("page size token '"@ + value + "' is not valid for this command"@)
        } else {
            match size {
                Ok(size) => Token::PageSize(size),
                Err(message) => Token::Refused(message),
            }
        }
    } else if allowed.write && write_token(value) is Some {
        write_token(value)->0
    } else if allowed.deletion_packing && deletion_token(value) is Some {
        deletion_token(value)->0
    } else if is_reserved(value) {
        Token::Refused("token '"@ + value + "' is not valid for this command"@)
    } else {
        Token::Path
    }
}

/// The message for a kind of word that occurs twice.
pub open spec fn duplicate(name: Seq<char>) -> Seq<char> {
    "duplicate "@ + name + " token"@
}

/// No arguments at all.
pub open spec fn no_words() -> Words {
    Words {
        paths: Seq::empty(),
        format: None,
        codec: None,
        encoding: None,
        page_packing: None,
        deletion_packing: None,
        page_size: None,
        verify: false,
        compress_partial_page: false,
    }
}

/// What the arguments say once one more is taken in, or why it cannot be.
pub open spec fn with_token(words: Words, value: Seq<char>, token: Token) -> Result<
    Words,
    Seq<char>,
> {
    match token {
        Token::Format(format) => if words.format is Some {
            Err(duplicate("format"@))
        } else {
            Ok(Words { format: Some(format), ..words })
        },
        Token::PageSize(size) => if words.page_size is Some {
            Err(duplicate("page size"@))
        } else {
            Ok(Words { page_size: Some(size), ..words })
        },
        Token::Codec(codec) => if words.codec is Some {
            Err(duplicate("codec"@))
        } else {
            Ok(Words { codec: Some(codec), ..words })
        },
        Token::Encoding(encoding) => if words.encoding is Some {
            Err(duplicate("encoding"@))
        } else {
            Ok(Words { encoding: Some(encoding), ..words })
        },
        Token::Smallest => if words.codec is Some {
            Err(duplicate("codec"@))
        } else if words.encoding is Some {
            Err(duplicate("encoding"@))
        } else {
            Ok(
                Words {
                    codec: Some(CodecArg::Smallest),
                    encoding: Some(EncodingArg::Smallest),
                    ..words
                },
            )
        },
        Token::PagePacking(packing) => if words.page_packing is Some {
            Err(duplicate("page packing"@))
        } else {
            Ok(Words { page_packing: Some(packing), ..words })
        },
        Token::Verify => if words.verify {
            Err(duplicate("verify"@))
        } else {
            Ok(Words { verify: true, ..words })
        },
        Token::CompressPartialPage => if words.compress_partial_page {
            Err(duplicate("compress-partial-page"@))
        } else {
            Ok(Words { compress_partial_page: true, ..words })
        },
        Token::DeletionPacking(packing) => if words.deletion_packing is Some {
            Err(duplicate("deletion packing"@))
        } else {
            Ok(Words { deletion_packing: Some(packing), ..words })
        },
        Token::Path => Ok(Words { paths: words.paths.push(value), ..words }),
        Token::Refused(message) => Err(message),
    }
}

/// What the arguments of a command say, or what is wrong with the first that is wrong.
pub open spec fn words_of(values: Seq<Seq<char>>, allowed: Allowed) -> Result<Words, Seq<char>>
    decreases values.len(),
{
    if values.len() == 0 {
        Ok(no_words())
    } else {
        match words_of(values.drop_last(), allowed) {
            Ok(words) => with_token(words, values.last(), token_of(values.last(), allowed)),
            Err(message) => Err(message),
        }
    }
}

/// What the arguments of a command say.
#[derive(Debug)]
pub struct ParsedTokens {
    pub paths: Vec<String>,
    pub format: Option<TargetFormat>,
    pub codec: Option<CodecArg>,
    pub encoding: Option<EncodingArg>,
    pub page_packing: Option<PagePackingArg>,
    pub deletion_packing: Option<DeletionPackingArg>,
    pub page_size: Option<u32>,
    pub verify: bool,
    pub compress_partial_page: bool,
}

impl View for ParsedTokens {
    type V = Words;

    open spec fn view(&self) -> Words {
        Words {
            paths: text::views(self.paths@),
            format: self.format,
            codec: self.codec,
            encoding: self.encoding,
            page_packing: self.page_packing,
            deletion_packing: self.deletion_packing,
            page_size: self.page_size,
            verify: self.verify,
            compress_partial_page: self.compress_partial_page,
        }
    }
}

impl Default for ParsedTokens {
    fn default() -> (result: Self)
        ensures
            result@ == no_words(),
    {
        let result = ParsedTokens {
            paths: Vec::new(),
            format: None,
            codec: None,
            encoding: None,
            page_packing: None,
            deletion_packing: None,
            page_size: None,
            verify: false,
            compress_partial_page: false,
        };
        assert(result@.paths == Seq::<Seq<char>>::empty());
        result
    }
}

impl Words {
    /// Whether any word asks for something that only v2 files have.
    pub open spec fn asks_for_v2(self) -> bool {
        ||| self.codec is Some
        ||| self.encoding is Some
        ||| self.page_packing is Some
        ||| self.page_size is Some
        ||| self.verify
        ||| self.compress_partial_page
    }

    /// The write settings that the words ask for, over the defaults.
    pub open spec fn write_settings(self, zstd_level: i32) -> V2WriteOptions {
        V2WriteOptions {
            codec: self.codec.unwrap_or(CodecArg::Zstd),
            encoding: self.encoding.unwrap_or(EncodingArg::ColumnarBasic),
            zstd_level,
            compress_partial_page: self.compress_partial_page,
            page_packing: self.page_packing.unwrap_or(PagePackingArg::EstimateShrink),
            verify: self.verify,
        }
    }

    /// The write settings of a mutation.
    pub open spec fn mutation_settings(
        self,
        zstd_level: Option<i32>,
        force_compress_partial_page: bool,
    ) -> V2WriteOptions {
        let write = self.write_settings(zstd_level.unwrap_or(DEFAULT_ZSTD_LEVEL));
        V2WriteOptions {
            compress_partial_page: write.compress_partial_page || force_compress_partial_page,
            ..write
        }
    }
}

impl ParsedTokens {
    /// Whether any word asks for something that only v2 files have.
    pub fn has_v2_write_tokens(&self) -> (result: bool)
        ensures
            result == self@.asks_for_v2(),
    {
        self.codec.is_some() || self.encoding.is_some() || self.page_packing.is_some()
            || self.page_size.is_some() || self.verify || self.compress_partial_page
    }

    /// The write settings that the words ask for, over the defaults.
    pub fn write_options(&self, args: V2WriteArgs) -> (result: V2WriteOptions)
        ensures
            result == self@.write_settings(args.zstd_level),
    {
        let mut write: V2WriteOptions = V2WriteOptions::from_args(args);
        if let Some(codec) = self.codec {
            write.codec = codec;
        }
        if let Some(encoding) = self.encoding {
            write.encoding = encoding;
        }
        if let Some(page_packing) = self.page_packing {
            write.page_packing = page_packing;
        }
        write.verify = self.verify;
        write.compress_partial_page = self.compress_partial_page;
        write
    }

    /// The options of a mutation, and the write settings that they were made from.
    pub fn operation_options(
        &self,
        v1_key_field_index: usize,
        zstd_level: Option<i32>,
        deletion_packing: DeletionPacking,
        force_compress_partial_page: bool,
    ) -> (result: (OperationOptions, V2WriteOptions))
        ensures
            result.1 == self@.mutation_settings(zstd_level, force_compress_partial_page),
            result.0.reader_options.v1_key_field_index == v1_key_field_index,
            result.0.v2 == Some(result.1.page_options_for(DEFAULT_PAGE_SIZE)),
            result.0.deletion_packing == deletion_packing,
    {
        let level: i32 = match zstd_level {
            Some(level) => level,
            None => DEFAULT_ZSTD_LEVEL,
        };
        let mut write: V2WriteOptions = self.write_options(V2WriteArgs { zstd_level: level });
        write.compress_partial_page = write.compress_partial_page || force_compress_partial_page;
        (
            OperationOptions {
                reader_options: ReaderOptions { v1_key_field_index },
                v2: Some(write.page_options(DEFAULT_PAGE_SIZE)),
                deletion_packing,
            },
            write,
        )
    }
}

/// Fills a slot that is still empty.
pub fn set_once<T: Copy>(slot: &mut Option<T>, value: T, name: &str) -> (result: Result<(), String>)
    ensures
        match *old(slot) {
            Some(_) => *final(slot) == *old(slot) && text::worded(result) == Err::<(), Seq<char>>(
                duplicate(name@),
            ),
            None => *final(slot) == Some(value) && result is Ok,
        },
{
    if slot.is_some() {
        return Err(text::concat3("duplicate ", name, " token"));
    }
    *slot = Some(value);
    Ok(())
}

/// Raises a flag that is not raised yet.
pub fn set_bool_once(seen: &mut bool, name: &str) -> (result: Result<(), String>)
    ensures
        *final(seen),
        text::worded(result) == if *old(seen) {
            Err(duplicate(name@))
        } else {
            Ok::<(), Seq<char>>(())
        },
{
    if *seen {
        return Err(text::concat3("duplicate ", name, " token"));
    }
    *seen = true;
    Ok(())
}

/// Whether a value is a word of any command.
pub fn is_any_reserved_token(value: &str) -> (result: bool)
    ensures
        result == is_reserved(value@),
{
    text::same(value, "v1") || text::same(value, "v2") || text::same(value, "conversion-matrix")
        || text::same(value, "range") || text::same(value, "random-page")
        || text::same(value, "scan") || text::same(value, "uncompressed")
        || text::same(value, "zstd") || text::same(value, "lz4") || text::same(value, "smallest")
        || text::same(value, "row-raw") || text::same(value, "columnar-basic")
        || text::same(value, "columnar-delta") || text::same(value, "estimate-shrink")
        || text::same(value, "tight-fit") || text::same(value, "verify")
        || text::same(value, "compress-partial-page") || text::same(value, "local-repack")
        || text::same(value, "repack-to-end")
}

/// Holds a zstd level to the levels that there are.
pub fn validate_zstd_level(level: i32) -> (result: Result<(), String>)
    ensures
        text::worded(result) == if 1 <= level <= 22 {
            Ok(())
        } else {
            Err("--zstd-level must be between 1 and 22"@)
        },
{
    if level < 1 || level > 22 {
        return Err("--zstd-level must be between 1 and 22".to_owned());
    }
    Ok(())
}

/// The digits of a page size where the value ends in `suffix`.
fn page_size_number(value: &Vec<char>, suffix: &str, length: usize) -> (result: Option<Vec<char>>)
    requires
        suffix@.len() == length,
    ensures
        match result {
            Some(digits) => text::has_suffix(value@, suffix@) && digits@ == text::without_last(
                value@,
                length as nat,
            ) && number::all_digits(digits@),
            None => !(text::has_suffix(value@, suffix@) && number::all_digits(
                text::without_last(value@, length as nat),
            )),
        },
{
    if !text::ends_with(value, suffix) {
        return None;
    }
    let count: usize = value.len() - length;
    let mut digits: Vec<char> = Vec::new();
    let mut i: usize = 0;
    while i < count
        invariant
            i <= count,
            count == value@.len() - length,
            digits@ == value@.take(i as int),
            forall|j: int| 0 <= j < i ==> number::is_digit(#[trigger] digits@[j]),
        decreases count - i,
    {
        let ch: char = value[i];
        if !('0' <= ch && ch <= '9') {
            assert(!number::is_digit(value@.take(count as int)[i as int]));
            return None;
        }
        digits.push(ch);
        i = i + 1;
        assert(digits@ == value@.take(i as int));
    }
    if count == 0 {
        return None;
    }
    Some(digits)
}

/// The page size that a value such as `512KiB` denotes; `None` where it has no such form.
pub fn parse_page_size_token(value: &str) -> (result: Option<Result<u32, String>>)
    ensures
        match result {
            Some(size) => page_size_token(value@) == Some(text::worded(size)),
            None => page_size_token(value@) is None,
        },
{
    proof {
        reveal_strlit("KiB");
        reveal_strlit("MiB");
        reveal_strlit("KB");
        reveal_strlit("MB");
        reveal_strlit("B");
    }
    let chars: Vec<char> = text::chars_of(value);
    let (digits, unit): (Vec<char>, u64) = match page_size_number(&chars, "KiB", 3) {
        Some(digits) => (digits, 1_024),
        None => match page_size_number(&chars, "MiB", 3) {
            Some(digits) => (digits, 1_048_576),
            None => match page_size_number(&chars, "KB", 2) {
                Some(digits) => (digits, 1_000),
                None => match page_size_number(&chars, "MB", 2) {
                    Some(digits) => (digits, 1_000_000),
                    None => match page_size_number(&chars, "B", 1) {
                        Some(digits) => (digits, 1),
                        None => {
                            return None;
                        },
                    },
                },
            },
        },
    };
    Some(page_size_in_bytes(&digits, unit))
}

fn page_size_in_bytes(digits: &Vec<char>, unit: u64) -> (result: Result<u32, String>)
    requires
        number::all_digits(digits@),
    ensures
        text::worded(result) == page_size_of(digits@, unit as nat),
{
    assert(digits@.skip(0) == digits@);
    let amount: u64 = match number::read_digits(digits, 0) {
        Some(amount) if amount <= u64::MAX as u128 => amount as u64,
        _ => {
            return Err("number too large to fit in target type".to_owned());
        },
    };
    match amount.checked_mul(unit) {
        None => Err("page size is too large".to_owned()),
        Some(size) => {
            if MIN_PAGE_SIZE <= size && size <= MAX_PAGE_SIZE {
                Ok(size as u32)
            } else {
                Err("page size must be between 1KiB and 16MiB".to_owned())
            }
        },
    }
}

/// Takes one word for a write setting in; `None` where the value is no such word.
fn take_write_token(parsed: &mut ParsedTokens, value: &str) -> (result: Option<Result<(), String>>)
    ensures
        match result {
            None => write_token(value@) is None && final(parsed)@ == old(parsed)@,
            Some(Ok(_)) => write_token(value@) is Some && with_token(
                old(parsed)@,
                value@,
                write_token(value@)->0,
            ) == Ok::<Words, Seq<char>>(final(parsed)@),
            Some(Err(message)) => write_token(value@) is Some && with_token(
                old(parsed)@,
                value@,
                write_token(value@)->0,
            ) == Err::<Words, Seq<char>>(message@),
        },
{
    let codec: Option<CodecArg> = if text::same(value, "uncompressed") {
        Some(CodecArg::Uncompressed)
    } else if text::same(value, "zstd") {
        Some(CodecArg::Zstd)
    } else if text::same(value, "lz4") {
        Some(CodecArg::Lz4)
    } else {
        None
    };
    if let Some(codec) = codec {
        return Some(set_once(&mut parsed.codec, codec, "codec"));
    }
    let encoding: Option<EncodingArg> = if text::same(value, "row-raw") {
        Some(EncodingArg::RowRaw)
    } else if text::same(value, "columnar-basic") {
        Some(EncodingArg::ColumnarBasic)
    } else if text::same(value, "columnar-delta") {
        Some(EncodingArg::ColumnarDelta)
    } else {
        None
    };
    if let Some(encoding) = encoding {
        return Some(set_once(&mut parsed.encoding, encoding, "encoding"));
    }
    if text::same(value, "smallest") {
        return match set_once(&mut parsed.codec, CodecArg::Smallest, "codec") {
            Ok(_) => Some(set_once(&mut parsed.encoding, EncodingArg::Smallest, "encoding")),
            Err(message) => Some(Err(message)),
        };
    }
    if text::same(value, "estimate-shrink") {
        return Some(
            set_once(&mut parsed.page_packing, PagePackingArg::EstimateShrink, "page packing"),
        );
    }
    if text::same(value, "tight-fit") {
        return Some(set_once(&mut parsed.page_packing, PagePackingArg::TightFit, "page packing"));
    }
    if text::same(value, "verify") {
        return Some(set_bool_once(&mut parsed.verify, "verify"));
    }
    if text::same(value, "compress-partial-page") {
        return Some(set_bool_once(&mut parsed.compress_partial_page, "compress-partial-page"));
    }
    None
}

/// Takes one argument in.
fn take_value(parsed: &mut ParsedTokens, value: &String, allowed: Allowed) -> (result: Result<
    (),
    String,
>)
    ensures
        match result {
            Ok(_) => with_token(old(parsed)@, value@, token_of(value@, allowed)) == Ok::<
                Words,
                Seq<char>,
            >(final(parsed)@),
            Err(message) => with_token(old(parsed)@, value@, token_of(value@, allowed)) == Err::<
                Words,
                Seq<char>,
            >(message@),
        },
{
    if allowed.format {
        if let Some(format) = match_target_format(value.as_str()) {
            return set_once(&mut parsed.format, format, "format");
        }
    }
    if allowed.bench && match_bench_mode(value.as_str()).is_some() {
        return Err(
            text::concat3("bench mode token '", value.as_str(), "' is not valid in this position"),
        );
    }
    if let Some(size) = parse_page_size_token(value.as_str()) {
        if !allowed.page_size {
            return Err(
                text::concat3(
                    "page size token '",
                    value.as_str(),
                    "' is not valid for this command",
                ),
            );
        }
        return match size {
            Ok(size) => set_once(&mut parsed.page_size, size, "page size"),
            Err(message) => Err(message),
        };
    }
    if allowed.write {
        if let Some(result) = take_write_token(parsed, value.as_str()) {
            return result;
        }
    }
    if allowed.deletion_packing {
        if text::same(value.as_str(), "local-repack") {
            return set_once(
                &mut parsed.deletion_packing,
                DeletionPackingArg::LocalRepack,
                "deletion packing",
            );
        }
        if text::same(value.as_str(), "repack-to-end") {
            return set_once(
                &mut parsed.deletion_packing,
                DeletionPackingArg::RepackToEnd,
                "deletion packing",
            );
        }
    }
    if is_any_reserved_token(value.as_str()) {
        return Err(text::concat3("token '", value.as_str(), "' is not valid for this command"));
    }
    parsed.paths.push(value.clone());
    assert(parsed@.paths == old(parsed)@.paths.push(value@));
    Ok(())
}

/// Reads the arguments of a command that knows the kinds of words that are allowed.
pub fn parse_command_tokens(
    values: &[String],
    allow_format: bool,
    allow_write: bool,
    allow_page_size: bool,
    allow_bench: bool,
    allow_deletion_packing: bool,
) -> (result: Result<ParsedTokens, String>)
    ensures
        ({
            let allowed = Allowed {
                format: allow_format,
                write: allow_write,
                page_size: allow_page_size,
                bench: allow_bench,
                deletion_packing: allow_deletion_packing,
            };
            match result {
                Ok(parsed) => words_of(text::views(values@), allowed) == Ok::<Words, Seq<char>>(
                    parsed@,
                ),
                Err(message) => words_of(text::views(values@), allowed) == Err::<Words, Seq<char>>(
                    message@,
                ),
            }
        }),
{
    let allowed = Allowed {
        format: allow_format,
        write: allow_write,
        page_size: allow_page_size,
        bench: allow_bench,
        deletion_packing: allow_deletion_packing,
    };
    let ghost words = text::views(values@);
    let mut parsed: ParsedTokens = ParsedTokens::default();
    let mut i: usize = 0;
    assert(words.take(0) == Seq::<Seq<char>>::empty());
    while i < values.len()
        invariant
            i <= values@.len(),
            allowed == (Allowed {
                format: allow_format,
                write: allow_write,
                page_size: allow_page_size,
                bench: allow_bench,
                deletion_packing: allow_deletion_packing,
            }),
            words == text::views(values@),
            words_of(words.take(i as int), allowed) == Ok::<Words, Seq<char>>(parsed@),
        decreases values@.len() - i,
    {
        let ghost taken = words.take(i as int + 1);
        assert(taken.drop_last() == words.take(i as int));
        assert(taken.last() == values@[i as int]@);
        match take_value(&mut parsed, &values[i], allowed) {
            Ok(_) => {},
            Err(message) => {
                proof {
                    assert(words_of(taken, allowed) == Err::<Words, Seq<char>>(message@));
                    error_stays(words, i as int + 1, allowed);
                }
                return Err(message);
            },
        }
        i = i + 1;
    }
    assert(words.take(i as int) == words);
    Ok(parsed)
}

/// The first argument that is wrong decides, whatever comes behind it.
pub proof fn error_stays(values: Seq<Seq<char>>, count: int, allowed: Allowed)
    requires
        0 <= count <= values.len(),
        words_of(values.take(count), allowed) is Err,
    ensures
        words_of(values, allowed) == words_of(values.take(count), allowed),
    decreases values.len() - count,
{
    if count < values.len() {
        let next = values.take(count + 1);
        assert(next.drop_last() == values.take(count));
        error_stays(values, count + 1, allowed);
    } else {
        assert(values.take(count) == values);
    }
}

/// Two arguments that cannot stand in one command: two words of one kind.
pub open spec fn clash(first: Token, second: Token) -> bool {
    match (first, second) {
        (Token::Format(_), Token::Format(_)) => true,
        (Token::PageSize(_), Token::PageSize(_)) => true,
        (Token::Codec(_) | Token::Smallest, Token::Codec(_) | Token::Smallest) => true,
        (Token::Encoding(_) | Token::Smallest, Token::Encoding(_) | Token::Smallest) => true,
        (Token::PagePacking(_), Token::PagePacking(_)) => true,
        (Token::Verify, Token::Verify) => true,
        (Token::CompressPartialPage, Token::CompressPartialPage) => true,
        (Token::DeletionPacking(_), Token::DeletionPacking(_)) => true,
        _ => false,
    }
}

/// What `words` keeps of a word that was taken in.
pub open spec fn recorded(words: Words, token: Token) -> bool {
    match token {
        Token::Format(format) => words.format == Some(format),
        Token::PageSize(size) => words.page_size == Some(size),
        Token::Codec(codec) => words.codec == Some(codec),
        Token::Encoding(encoding) => words.encoding == Some(encoding),
        Token::Smallest => words.codec == Some(CodecArg::Smallest) && words.encoding == Some(
            EncodingArg::Smallest,
        ),
        Token::PagePacking(packing) => words.page_packing == Some(packing),
        Token::Verify => words.verify,
        Token::CompressPartialPage => words.compress_partial_page,
        Token::DeletionPacking(packing) => words.deletion_packing == Some(packing),
        Token::Path => true,
        Token::Refused(_) => false,
    }
}

/// Every word of an accepted command is recorded, wherever it stands.
pub proof fn every_word_counts(values: Seq<Seq<char>>, allowed: Allowed, index: int)
    requires
        words_of(values, allowed) is Ok,
        0 <= index < values.len(),
    ensures
        recorded(words_of(values, allowed)->Ok_0, token_of(values[index], allowed)),
    decreases values.len(),
{
    if index < values.len() - 1 {
        every_word_counts(values.drop_last(), allowed, index);
    }
}

/// A command with two words of one kind is refused.
pub proof fn one_word_of_a_kind(values: Seq<Seq<char>>, allowed: Allowed, first: int, second: int)
    requires
        0 <= first < second < values.len(),
        clash(token_of(values[first], allowed), token_of(values[second], allowed)),
    ensures
        words_of(values, allowed) is Err,
{
    let prefix = values.take(second + 1);
    let before = values.take(second);
    assert(prefix.drop_last() == before);
    assert(prefix.last() == values[second]);
    if words_of(before, allowed) is Ok {
        assert(before[first] == values[first]);
        every_word_counts(before, allowed, first);
    }
    assert(words_of(prefix, allowed) is Err);
    error_stays(values, second + 1, allowed);
}

/// The arguments that are not words of a command, in their order.
pub open spec fn paths_among(values: Seq<Seq<char>>, allowed: Allowed) -> Seq<Seq<char>> {
    values.filter(|value: Seq<char>| token_of(value, allowed) is Path)
}

/// The paths of an accepted command are the arguments that are not words, in their order.
pub proof fn paths_keep_their_order(values: Seq<Seq<char>>, allowed: Allowed)
    requires
        words_of(values, allowed) is Ok,
    ensures
        words_of(values, allowed)->Ok_0.paths == paths_among(values, allowed),
    decreases values.len(),
{
    reveal(Seq::filter);
    if values.len() > 0 {
        paths_keep_their_order(values.drop_last(), allowed);
    }
}

/// A word of any command is never taken for a path.
pub proof fn words_are_no_paths(value: Seq<char>, allowed: Allowed)
    requires
        is_reserved(value) || page_size_token(value) is Some,
    ensures
        !(token_of(value, allowed) is Path),
{
}

/// A word may stand in front of a path or behind it: the command says the same.
pub proof fn words_move_past_paths(
    before: Seq<Seq<char>>,
    word: Seq<char>,
    path: Seq<char>,
    after: Seq<Seq<char>>,
    allowed: Allowed,
)
    requires
        !(token_of(word, allowed) is Path),
        token_of(path, allowed) is Path,
    ensures
        words_of(before.push(word).push(path) + after, allowed) == words_of(
            before.push(path).push(word) + after,
            allowed,
        ),
    decreases after.len(),
{
    let left = before.push(word).push(path);
    let right = before.push(path).push(word);
    if after.len() == 0 {
        assert(left + after == left);
        assert(right + after == right);
        assert(left.drop_last() == before.push(word));
        assert(right.drop_last() == before.push(path));
        assert(before.push(word).drop_last() == before);
        assert(before.push(path).drop_last() == before);
        reveal_with_fuel(words_of, 3);
        if words_of(before, allowed) is Ok {
            let words = words_of(before, allowed)->Ok_0;
            let first = with_token(words, word, token_of(word, allowed));
            let second = with_token(
                Words { paths: words.paths.push(path), ..words },
                word,
                token_of(word, allowed),
            );
            assert(first is Ok ==> second is Ok);
        }
    } else {
        words_move_past_paths(before, word, path, after.drop_last(), allowed);
        assert((left + after).drop_last() == left + after.drop_last());
        assert((right + after).drop_last() == right + after.drop_last());
        assert((left + after).last() == after.last());
        assert((right + after).last() == after.last());
    }
}

/// A command is accepted exactly where none of its arguments is refused by itself and no two are
/// words of one kind.
pub proof fn accepted_unless_words_clash(values: Seq<Seq<char>>, allowed: Allowed)
    ensures
        words_of(values, allowed) is Ok <==> {
            &&& forall|i: int|
                0 <= i < values.len() ==> !(#[trigger] token_of(values[i], allowed) is Refused)
            &&& forall|i: int, j: int|
                0 <= i < j < values.len() ==> !clash(
                    #[trigger] token_of(values[i], allowed),
                    #[trigger] token_of(values[j], allowed),
                )
        },
    decreases values.len(),
{
    if words_of(values, allowed) is Ok {
        assert forall|i: int| 0 <= i < values.len() implies !(#[trigger] token_of(
            values[i],
            allowed,
        ) is Refused) by {
            every_word_counts(values, allowed, i);
        }
        assert forall|i: int, j: int| 0 <= i < j < values.len() implies !clash(
            #[trigger] token_of(values[i], allowed),
            #[trigger] token_of(values[j], allowed),
        ) by {
            if clash(token_of(values[i], allowed), token_of(values[j], allowed)) {
                one_word_of_a_kind(values, allowed, i, j);
            }
        }
    } else if values.len() > 0 {
        let before = values.drop_last();
        let last = values.len() - 1;
        accepted_unless_words_clash(before, allowed);
        assert forall|i: int| 0 <= i < before.len() implies #[trigger] token_of(before[i], allowed)
            == token_of(values[i], allowed) by {}
        if words_of(before, allowed) is Ok {
            let token = token_of(values[last], allowed);
            if !(token is Refused) {
                let i = taken_by(before, allowed, token);
                assert(clash(token_of(values[i], allowed), token_of(values[last], allowed)));
            }
        } else if exists|i: int|
            0 <= i < before.len() && #[trigger] token_of(before[i], allowed) is Refused {
            let i = choose|i: int|
                0 <= i < before.len() && #[trigger] token_of(before[i], allowed) is Refused;
            assert(token_of(values[i], allowed) is Refused);
        } else {
            let (i, j) = choose|i: int, j: int|
                0 <= i < j < before.len() && clash(
                    #[trigger] token_of(before[i], allowed),
                    #[trigger] token_of(before[j], allowed),
                );
            assert(clash(token_of(values[i], allowed), token_of(values[j], allowed)));
        }
    }
}

/// The place of the argument that keeps one more word from being taken in.
proof fn taken_by(values: Seq<Seq<char>>, allowed: Allowed, token: Token) -> (place: int)
    requires
        words_of(values, allowed) is Ok,
        !(token is Refused),
        exists|value: Seq<char>|
            #[trigger] with_token(words_of(values, allowed)->Ok_0, value, token) is Err,
    ensures
        0 <= place < values.len(),
        clash(token_of(values[place], allowed), token),
    decreases values.len(),
{
    let before = values.drop_last();
    if values.len() > 0 && !clash(token_of(values.last(), allowed), token) {
        let value = choose|value: Seq<char>|
            #[trigger] with_token(words_of(values, allowed)->Ok_0, value, token) is Err;
        assert(with_token(words_of(before, allowed)->Ok_0, value, token) is Err);
        let place = taken_by(before, allowed, token);
        assert(before[place] == values[place]);
        place
    } else {
        values.len() - 1
    }
}

/// A word that an accepted command records stands among its arguments.
pub open spec fn stands_among(values: Seq<Seq<char>>, allowed: Allowed, token: Token) -> bool {
    exists|i: int| 0 <= i < values.len() && #[trigger] token_of(values[i], allowed) == token
}

/// What an accepted command records comes from its arguments, and from nothing else.
pub proof fn nothing_but_words_counts(values: Seq<Seq<char>>, allowed: Allowed)
    requires
        words_of(values, allowed) is Ok,
    ensures
        ({
            let words = words_of(values, allowed)->Ok_0;
            &&& words.format matches Some(format) ==> stands_among(
                values,
                allowed,
                Token::Format(format),
            )
            &&& words.page_size matches Some(size) ==> stands_among(
                values,
                allowed,
                Token::PageSize(size),
            )
            &&& words.codec matches Some(codec) ==> stands_among(
                values,
                allowed,
                Token::Codec(codec),
            ) || (codec is Smallest && stands_among(values, allowed, Token::Smallest))
            &&& words.encoding matches Some(encoding) ==> stands_among(
                values,
                allowed,
                Token::Encoding(encoding),
            ) || (encoding is Smallest && stands_among(values, allowed, Token::Smallest))
            &&& words.page_packing matches Some(packing) ==> stands_among(
                values,
                allowed,
                Token::PagePacking(packing),
            )
            &&& words.deletion_packing matches Some(packing) ==> stands_among(
                values,
                allowed,
                Token::DeletionPacking(packing),
            )
            &&& words.verify ==> stands_among(values, allowed, Token::Verify)
            &&& words.compress_partial_page ==> stands_among(
                values,
                allowed,
                Token::CompressPartialPage,
            )
        }),
    decreases values.len(),
{
    if values.len() > 0 {
        let before = values.drop_last();
        nothing_but_words_counts(before, allowed);
        assert forall|token: Token| #[trigger] stands_among(before, allowed, token) implies
            stands_among(values, allowed, token) by {
            let i = choose|i: int|
                0 <= i < before.len() && #[trigger] token_of(before[i], allowed) == token;
            assert(token_of(values[i], allowed) == token);
        }
        let last = token_of(values[values.len() - 1], allowed);
        assert(stands_among(values, allowed, last));
    }
}

/// The words of a command may stand in any order: two commands with the same arguments, and with
/// their paths in the same order, are both refused or say the same.
pub proof fn order_of_words_does_not_matter(
    left: Seq<Seq<char>>,
    right: Seq<Seq<char>>,
    allowed: Allowed,
)
    requires
        left.to_multiset() == right.to_multiset(),
        paths_among(left, allowed) == paths_among(right, allowed),
    ensures
        words_of(left, allowed) is Ok <==> words_of(right, allowed) is Ok,
        words_of(left, allowed) is Ok ==> words_of(left, allowed)->Ok_0 == words_of(
            right,
            allowed,
        )->Ok_0,
{
    if words_of(left, allowed) is Ok {
        accepted_in_any_order(left, right, allowed);
        same_words_in_any_order(left, right, allowed);
        same_words_in_any_order(right, left, allowed);
        paths_keep_their_order(left, allowed);
        paths_keep_their_order(right, allowed);
        assert(words_of(left, allowed)->Ok_0 =~= words_of(right, allowed)->Ok_0);
    } else if words_of(right, allowed) is Ok {
        accepted_in_any_order(right, left, allowed);
    }
}

proof fn accepted_in_any_order(left: Seq<Seq<char>>, right: Seq<Seq<char>>, allowed: Allowed)
    requires
        left.to_multiset() == right.to_multiset(),
        words_of(left, allowed) is Ok,
    ensures
        words_of(right, allowed) is Ok,
{
    accepted_unless_words_clash(left, allowed);
    accepted_unless_words_clash(right, allowed);
    assert forall|i: int| 0 <= i < right.len() implies !(#[trigger] token_of(
        right[i],
        allowed,
    ) is Refused) by {
        held_by_both(right, left, i);
        let k = choose|k: int| 0 <= k < left.len() && left[k] == right[i];
        assert(!(token_of(left[k], allowed) is Refused));
    }
    assert forall|i: int, j: int| 0 <= i < j < right.len() implies !clash(
        #[trigger] token_of(right[i], allowed),
        #[trigger] token_of(right[j], allowed),
    ) by {
        let (k, l) = two_places(left, right, i, j);
        let first = token_of(left[k], allowed);
        let second = token_of(left[l], allowed);
        assert(!clash(first, second) && !clash(second, first)) by {
            if k < l {
                assert(!clash(first, second));
            } else {
                assert(!clash(second, first));
            }
        }
    }
}

proof fn held_by_both(left: Seq<Seq<char>>, right: Seq<Seq<char>>, i: int)
    requires
        left.to_multiset() == right.to_multiset(),
        0 <= i < left.len(),
    ensures
        right.contains(left[i]),
{
    broadcast use vstd::seq_lib::group_to_multiset_ensures;

    assert(left.contains(left[i]));
    assert(left.to_multiset().count(left[i]) > 0);
    assert(right.to_multiset().count(left[i]) > 0);
}

/// Two places that hold in `left` what two places of `right` hold.
proof fn two_places(left: Seq<Seq<char>>, right: Seq<Seq<char>>, i: int, j: int) -> (places: (
    int,
    int,
))
    requires
        left.to_multiset() == right.to_multiset(),
        0 <= i < j < right.len(),
    ensures
        0 <= places.0 < left.len(),
        0 <= places.1 < left.len(),
        places.0 != places.1,
        left[places.0] == right[i],
        left[places.1] == right[j],
{
    broadcast use vstd::seq_lib::group_to_multiset_ensures;

    held_by_both(right, left, i);
    let k = choose|k: int| 0 <= k < left.len() && left[k] == right[i];
    let fewer_left = left.remove(k);
    let fewer_right = right.remove(i);
    assert(fewer_left.to_multiset() == fewer_right.to_multiset());
    assert(fewer_right[j - 1] == right[j]);
    held_by_both(fewer_right, fewer_left, j - 1);
    let l = choose|l: int| 0 <= l < fewer_left.len() && fewer_left[l] == right[j];
    if l < k {
        (k, l)
    } else {
        (k, l + 1)
    }
}

proof fn same_words_in_any_order(left: Seq<Seq<char>>, right: Seq<Seq<char>>, allowed: Allowed)
    requires
        left.to_multiset() == right.to_multiset(),
        words_of(left, allowed) is Ok,
        words_of(right, allowed) is Ok,
    ensures
        ({
            let one = words_of(left, allowed)->Ok_0;
            let other = words_of(right, allowed)->Ok_0;
            &&& one.format is Some ==> other.format == one.format
            &&& one.page_size is Some ==> other.page_size == one.page_size
            &&& one.codec is Some ==> other.codec == one.codec
            &&& one.encoding is Some ==> other.encoding == one.encoding
            &&& one.page_packing is Some ==> other.page_packing == one.page_packing
            &&& one.deletion_packing is Some ==> other.deletion_packing == one.deletion_packing
            &&& one.verify ==> other.verify
            &&& one.compress_partial_page ==> other.compress_partial_page
        }),
{
    nothing_but_words_counts(left, allowed);
    assert forall|token: Token| #[trigger] stands_among(left, allowed, token) implies recorded(
        words_of(right, allowed)->Ok_0,
        token,
    ) by {
        let i = choose|i: int|
            0 <= i < left.len() && #[trigger] token_of(left[i], allowed) == token;
        held_by_both(left, right, i);
        let k = choose|k: int| 0 <= k < right.len() && right[k] == left[i];
        every_word_counts(right, allowed, k);
    }
}

/// The word for a setting is taken for that setting.
pub proof fn words_are_taken_for_what_they_name(
    codec: CodecArg,
    encoding: EncodingArg,
    packing: PagePackingArg,
    deletion: DeletionPackingArg,
)
    ensures
        write_token(codec.word()) == Some(
            if codec is Smallest {
                Token::Smallest
            } else {
                Token::Codec(codec)
            },
        ),
        write_token(encoding.word()) == Some(
            if encoding is Smallest {
                Token::Smallest
            } else {
                Token::Encoding(encoding)
            },
        ),
        write_token(packing.word()) == Some(Token::PagePacking(packing)),
        deletion_token(deletion.word()) == Some(Token::DeletionPacking(deletion)),
        is_reserved(codec.word()),
        is_reserved(encoding.word()),
        is_reserved(packing.word()),
        is_reserved(deletion.word()),
{
    settings_have_their_own_words();
}

proof fn settings_have_their_own_words()
    ensures
        "uncompressed"@.len() == 12,
        "zstd"@.len() == 4,
        "lz4"@.len() == 3,
        "smallest"@.len() == 8,
        "row-raw"@.len() == 7,
        "columnar-basic"@.len() == 14,
        "columnar-delta"@.len() == 14,
        "columnar-basic"@ != "columnar-delta"@,
        "estimate-shrink"@.len() == 15,
        "tight-fit"@.len() == 9,
        "verify"@.len() == 6,
        "compress-partial-page"@.len() == 21,
        "local-repack"@.len() == 12,
        "repack-to-end"@.len() == 13,
{
    reveal_strlit("uncompressed");
    reveal_strlit("zstd");
    reveal_strlit("lz4");
    reveal_strlit("smallest");
    reveal_strlit("row-raw");
    reveal_strlit("columnar-basic");
    reveal_strlit("columnar-delta");
    assert("columnar-basic"@[9] == 'b');
    assert("columnar-delta"@[9] == 'd');
    reveal_strlit("estimate-shrink");
    reveal_strlit("tight-fit");
    reveal_strlit("verify");
    reveal_strlit("compress-partial-page");
    reveal_strlit("local-repack");
    reveal_strlit("repack-to-end");
}

/// A command that knows the word for a setting records that setting, and a command that does not
/// know it refuses the word: no word means something only here and there.
pub proof fn known_words_count_and_others_are_refused(
    encoding: EncodingArg,
    codec: CodecArg,
    deletion: DeletionPackingArg,
    allowed: Allowed,
)
    ensures
        allowed.write && !(encoding is Smallest) ==> token_of(encoding.word(), allowed)
            == Token::Encoding(encoding),
        allowed.write && !(codec is Smallest) ==> token_of(codec.word(), allowed) == Token::Codec(
            codec,
        ),
        allowed.deletion_packing ==> token_of(deletion.word(), allowed) == Token::DeletionPacking(
            deletion,
        ),
        !allowed.write ==> token_of(encoding.word(), allowed) is Refused,
        !allowed.write ==> token_of(codec.word(), allowed) is Refused,
        !allowed.deletion_packing ==> token_of(deletion.word(), allowed) is Refused,
{
    words_are_taken_for_what_they_name(
        codec,
        encoding,
        PagePackingArg::TightFit,
        deletion,
    );
    small_words_are_no_sizes(codec.word());
    small_words_are_no_sizes(encoding.word());
    small_words_are_no_sizes(deletion.word());
    settings_are_no_formats_or_modes(codec.word());
    settings_are_no_formats_or_modes(encoding.word());
    settings_are_no_formats_or_modes(deletion.word());
    deletions_are_no_write_settings(deletion);
    deletion_words_only(codec.word());
    deletion_words_only(encoding.word());
}

proof fn deletions_are_no_write_settings(deletion: DeletionPackingArg)
    ensures
        write_token(deletion.word()) is None,
{
    settings_have_their_own_words();
    reveal_strlit("uncompressed");
    reveal_strlit("local-repack");
    assert("uncompressed"@[0] == 'u');
    assert("local-repack"@[0] == 'l');
}

proof fn deletion_words_only(value: Seq<char>)
    ensures
        write_token(value) is Some ==> deletion_token(value) is None,
{
    deletions_are_no_write_settings(DeletionPackingArg::LocalRepack);
    deletions_are_no_write_settings(DeletionPackingArg::RepackToEnd);
}

proof fn settings_are_no_formats_or_modes(value: Seq<char>)
    requires
        write_token(value) is Some || deletion_token(value) is Some,
    ensures
        arguments::target_format(value) is None,
        arguments::bench_mode(value) is None,
{
    settings_have_their_own_words();
    reveal_strlit("v1");
    reveal_strlit("v2");
    reveal_strlit("conversion-matrix");
    reveal_strlit("range");
    reveal_strlit("random-page");
    reveal_strlit("scan");
    reveal_strlit("zstd");
    assert("scan"@[0] == 's');
    assert("zstd"@[0] == 'z');
}

proof fn small_words_are_no_sizes(value: Seq<char>)
    requires
        write_token(value) is Some || deletion_token(value) is Some,
    ensures
        page_size_token(value) is None,
{
    reveal_strlit("uncompressed");
    reveal_strlit("zstd");
    reveal_strlit("lz4");
    reveal_strlit("smallest");
    reveal_strlit("row-raw");
    reveal_strlit("columnar-basic");
    reveal_strlit("columnar-delta");
    reveal_strlit("estimate-shrink");
    reveal_strlit("tight-fit");
    reveal_strlit("verify");
    reveal_strlit("compress-partial-page");
    reveal_strlit("local-repack");
    reveal_strlit("repack-to-end");
    assert(value.last() != 'B');
    if page_size_parts(value) is Some {
        sizes_end_in_bytes(value);
    }
}

proof fn sizes_end_in_bytes(value: Seq<char>)
    requires
        page_size_parts(value) is Some,
    ensures
        value.last() == 'B',
{
    reveal_strlit("KiB");
    reveal_strlit("MiB");
    reveal_strlit("KB");
    reveal_strlit("MB");
    reveal_strlit("B");
    if text::has_suffix(value, "KiB"@) {
        ends_alike(value, "KiB"@);
    } else if text::has_suffix(value, "MiB"@) {
        ends_alike(value, "MiB"@);
    } else if text::has_suffix(value, "KB"@) {
        ends_alike(value, "KB"@);
    } else if text::has_suffix(value, "MB"@) {
        ends_alike(value, "MB"@);
    } else {
        ends_alike(value, "B"@);
    }
}

proof fn ends_alike(value: Seq<char>, suffix: Seq<char>)
    requires
        text::has_suffix(value, suffix),
        suffix.len() > 0,
    ensures
        value.last() == suffix.last(),
{
    assert(value.skip(value.len() - suffix.len()).last() == suffix.last());
}

/// How many bytes the unit of a page size stands for.
pub open spec fn unit_bytes(unit: Seq<char>) -> Option<nat> {
    if unit == "B"@ {
        Some(1)
    } else if unit == "KB"@ {
        Some(1_000)
    } else if unit == "MB"@ {
        Some(1_000_000)
    } else if unit == "KiB"@ {
        Some(1_024)
    } else if unit == "MiB"@ {
        Some(1_048_576)
    } else {
        None
    }
}

/// A number with a unit is the page size of so many units, exactly where that lies between the
/// smallest and the largest page size.
pub proof fn page_sizes_count_units(amount: nat, unit: Seq<char>)
    requires
        unit_bytes(unit) is Some,
    ensures
        page_size_token(number::decimal(amount) + unit) is Some,
        page_size_token(number::decimal(amount) + unit)->0 is Ok <==> MIN_PAGE_SIZE <= amount
            * unit_bytes(unit)->0 <= MAX_PAGE_SIZE,
        page_size_token(number::decimal(amount) + unit) matches Some(Ok(size)) ==> size == amount
            * unit_bytes(unit)->0,
{
    reveal_strlit("KiB");
    reveal_strlit("MiB");
    reveal_strlit("KB");
    reveal_strlit("MB");
    reveal_strlit("B");
    assert("KiB"@.len() == 3);
    assert("MiB"@.len() == 3);
    assert("KB"@.len() == 2);
    assert("MB"@.len() == 2);
    assert("B"@.len() == 1);
    let digits = number::decimal(amount);
    let value = digits + unit;
    number::decimal_is_digits(amount);
    number::decimal_reads_back(amount);
    assert(value.skip(value.len() - unit.len()) == unit);
    assert(text::without_last(value, unit.len()) == digits);
    assert(text::has_suffix(value, unit));
    let end = value.len() - 1;
    assert(number::is_digit(digits[digits.len() - 1]));
    assert(value[digits.len() - 1] == digits[digits.len() - 1]);
    if unit == "KB"@ || unit == "MB"@ {
        assert(value[end - 2] == digits[digits.len() - 1]);
        other_end(value, "KiB"@, 0);
        other_end(value, "MiB"@, 0);
        other_end(value, "KB"@, 0);
    } else if unit == "B"@ {
        assert(value[end - 1] == digits[digits.len() - 1]);
        other_end(value, "KiB"@, 1);
        other_end(value, "MiB"@, 1);
        other_end(value, "KB"@, 0);
        other_end(value, "MB"@, 0);
    } else {
        other_end(value, "KiB"@, 0);
    }
    let bytes = unit_bytes(unit)->0;
    assert(page_size_parts(value) == Some((digits, bytes)));
    assert(amount <= amount * bytes) by (nonlinear_arith)
        requires
            bytes >= 1,
    ;
}

proof fn other_end(value: Seq<char>, suffix: Seq<char>, place: int)
    requires
        0 <= place < suffix.len(),
    ensures
        suffix.len() <= value.len() && value[value.len() - suffix.len() + place] != suffix[place]
            ==> !text::has_suffix(value, suffix),
{
    if suffix.len() <= value.len() {
        assert(value.skip(value.len() - suffix.len())[place] == value[value.len() - suffix.len()
            + place]);
    }
}

/// Whether a word asks for something that only v2 files have.
pub open spec fn is_v2_word(token: Token) -> bool {
    token is PageSize || token is Codec || token is Encoding || token is Smallest
        || token is PagePacking || token is Verify || token is CompressPartialPage
}

/// A command asks for v2 exactly if one of its words does.
pub proof fn v2_is_asked_for_by_words(values: Seq<Seq<char>>, allowed: Allowed)
    requires
        words_of(values, allowed) is Ok,
    ensures
        words_of(values, allowed)->Ok_0.asks_for_v2() <==> exists|i: int|
            0 <= i < values.len() && is_v2_word(#[trigger] token_of(values[i], allowed)),
{
    let words = words_of(values, allowed)->Ok_0;
    nothing_but_words_counts(values, allowed);
    if exists|i: int| 0 <= i < values.len() && is_v2_word(#[trigger] token_of(values[i], allowed)) {
        let i = choose|i: int|
            0 <= i < values.len() && is_v2_word(#[trigger] token_of(values[i], allowed));
        every_word_counts(values, allowed, i);
    }
    if words.asks_for_v2() {
        assert(exists|token: Token|
            is_v2_word(token) && #[trigger] stands_among(values, allowed, token));
        let token = choose|token: Token|
            is_v2_word(token) && #[trigger] stands_among(values, allowed, token);
        let i = choose|i: int|
            0 <= i < values.len() && #[trigger] token_of(values[i], allowed) == token;
        assert(is_v2_word(token_of(values[i], allowed)));
    }
}

/// What words ask for is what is written with, and what they leave open stays at its default.
pub proof fn words_set_what_they_name(words: Words, zstd_level: i32)
    ensures
        ({
            let write = words.write_settings(zstd_level);
            let defaults = V2WriteOptions::defaults(zstd_level);
            &&& words.codec matches Some(codec) ==> write.codec == codec
            &&& words.codec is None ==> write.codec == defaults.codec
            &&& words.encoding matches Some(encoding) ==> write.encoding == encoding
            &&& words.encoding is None ==> write.encoding == defaults.encoding
            &&& words.page_packing matches Some(packing) ==> write.page_packing == packing
            &&& words.page_packing is None ==> write.page_packing == defaults.page_packing
            &&& write.verify == words.verify
            &&& write.compress_partial_page == words.compress_partial_page
            &&& write.zstd_level == zstd_level
            &&& words.mutation_settings(Some(zstd_level), false) == write
            &&& words.mutation_settings(Some(zstd_level), true) == (V2WriteOptions {
                compress_partial_page: true,
                ..write
            })
            &&& words.mutation_settings(None, false) == words.mutation_settings(
                Some(DEFAULT_ZSTD_LEVEL),
                false,
            )
        }),
{
}

} // verus!

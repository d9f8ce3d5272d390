//! What the arguments of each command name: files, formats, keys, and the settings to work with.

use crate::cli::arguments;
use crate::cli::arguments::{
    match_bench_mode, match_target_format, BenchMode, DeletionPackingArg, TargetFormat,
    V2WriteArgs, V2WriteOptions, DEFAULT_TARGET_FORMAT,
};
use crate::cli::tokens;
use crate::cli::tokens::{
    is_any_reserved_token, parse_command_tokens, parse_page_size_token, set_once,
    validate_zstd_level, Allowed,
};
use crate::options::{DeletionPacking, OperationOptions, DEFAULT_PAGE_SIZE};
use crate::text;
use vstd::prelude::*;
use vstd::string::*;

verus! {

/// The words that `convert` and `concat` know.
pub open spec fn output_words() -> Allowed {
    Allowed { format: true, write: true, page_size: true, bench: false, deletion_packing: false }
}

/// The words that `split` knows.
pub open spec fn split_words() -> Allowed {
    Allowed { format: false, write: true, page_size: true, bench: false, deletion_packing: false }
}

/// The words that `append` knows.
pub open spec fn append_words() -> Allowed {
    Allowed { format: false, write: true, page_size: false, bench: false, deletion_packing: false }
}

/// The words that `delete` knows.
pub open spec fn delete_words() -> Allowed {
    Allowed { format: false, write: true, page_size: false, bench: false, deletion_packing: true }
}

/// Why the arguments of `convert` are refused, if they are.
pub open spec fn convert_refusal(values: Seq<Seq<char>>) -> Option<Seq<char>> {
    match tokens::words_of(values, output_words()) {
        Err(message) => Some(message),
        Ok(words) => if words.format == Some(TargetFormat::V1) && words.asks_for_v2() {
            Some("v2 write tokens are not valid when converting to v1"@)
        } else if words.paths.len() != 2 {
            Some("convert expects exactly input and output paths after tokens"@)
        } else {
            None
        },
    }
}

/// The target format, the input, the output, the page size and the write settings of `convert`.
pub fn parse_convert_target(values: &[String], write_args: V2WriteArgs) -> (result: Result<
    (TargetFormat, String, String, u32, V2WriteOptions),
    String,
>)
    ensures
        match result {
            Err(message) => convert_refusal(text::views(values@)) == Some(message@),
            Ok((format, input, output, page_size, write)) => {
                let words = tokens::words_of(text::views(values@), output_words())->Ok_0;
                &&& convert_refusal(text::views(values@)) is None
                &&& format == words.format.unwrap_or(DEFAULT_TARGET_FORMAT)
                &&& input@ == words.paths[0]
                &&& output@ == words.paths[1]
                &&& page_size == words.page_size.unwrap_or(DEFAULT_PAGE_SIZE)
                &&& write == words.write_settings(write_args.zstd_level)
            },
        },
{
    let parsed = match parse_command_tokens(values, true, true, true, false, false) {
        Ok(parsed) => parsed,
        Err(message) => {
            return Err(message);
        },
    };
    let format: TargetFormat = match parsed.format {
        Some(format) => format,
        None => DEFAULT_TARGET_FORMAT,
    };
    if format == TargetFormat::V1 && parsed.has_v2_write_tokens() {
        return Err("v2 write tokens are not valid when converting to v1".to_owned());
    }
    let write: V2WriteOptions = parsed.write_options(write_args);
    if parsed.paths.len() != 2 {
        return Err("convert expects exactly input and output paths after tokens".to_owned());
    }
    let page_size: u32 = match parsed.page_size {
        Some(page_size) => page_size,
        None => DEFAULT_PAGE_SIZE,
    };
    Ok((format, parsed.paths[0].clone(), parsed.paths[1].clone(), page_size, write))
}

/// What `append` was asked to do.
#[derive(Debug)]
pub struct AppendTarget {
    pub target: String,
    pub inputs: Vec<String>,
    pub write: V2WriteOptions,
}

/// Why the arguments of `append` are refused, if they are.
pub open spec fn append_refusal(values: Seq<Seq<char>>, zstd_level: i32) -> Option<Seq<char>> {
    match tokens::words_of(values, append_words()) {
        Err(message) => Some(message),
        Ok(words) => if words.paths.len() < 2 {
            Some("append expects a target and at least one input after tokens"@)
        } else if !(1 <= zstd_level <= 22) {
            Some("--zstd-level must be between 1 and 22"@)
        } else {
            None
        },
    }
}

/// The file that `append` grows, what it grows by, and the settings of the new pages.
pub fn parse_append_target(values: &[String], write_args: V2WriteArgs) -> (result: Result<
    AppendTarget,
    String,
>)
    ensures
        match result {
            Err(message) => append_refusal(text::views(values@), write_args.zstd_level) == Some(
                message@,
            ),
            Ok(target) => {
                let words = tokens::words_of(text::views(values@), append_words())->Ok_0;
                &&& append_refusal(text::views(values@), write_args.zstd_level) is None
                &&& target.target@ == words.paths[0]
                &&& text::views(target.inputs@) == words.paths.skip(1)
                &&& target.write == words.write_settings(write_args.zstd_level)
            },
        },
{
    let parsed = match parse_command_tokens(values, false, true, false, false, false) {
        Ok(parsed) => parsed,
        Err(message) => {
            return Err(message);
        },
    };
    let write: V2WriteOptions = parsed.write_options(write_args);
    if parsed.paths.len() < 2 {
        return Err("append expects a target and at least one input after tokens".to_owned());
    }
    match validate_zstd_level(write.zstd_level) {
        Ok(_) => {},
        Err(message) => {
            return Err(message);
        },
    }
    let inputs: Vec<String> = text::texts_from(parsed.paths.as_slice(), 1);
    assert(text::views(inputs@) == parsed@.paths.skip(1));
    Ok(AppendTarget { target: parsed.paths[0].clone(), inputs, write })
}

/// What `delete` was asked to do.
#[derive(Debug)]
pub struct DeleteTarget {
    pub path: String,
    pub selectors: Vec<String>,
    pub deletion_packing: DeletionPackingArg,
    pub operation_options: OperationOptions,
    pub write: V2WriteOptions,
    /// Whether the last page is compressed though it is not full.
    pub compress_partial_page: bool,
}

/// Why the arguments of `delete` are refused, if they are.
pub open spec fn delete_refusal(values: Seq<Seq<char>>) -> Option<Seq<char>> {
    match tokens::words_of(values, delete_words()) {
        Err(message) => Some(message),
        Ok(words) => if words.paths.len() == 0 {
            Some("delete expects PATH and at least one SELECTOR after tokens"@)
        } else if words.paths.len() == 1 {
            Some("delete requires at least one selector"@)
        } else {
            None
        },
    }
}

/// The file, the selectors and the settings of `delete`.
pub fn parse_delete_target(
    values: &[String],
    key_field_index: usize,
    zstd_level: Option<i32>,
) -> (result: Result<DeleteTarget, String>)
    ensures
        match result {
            Err(message) => delete_refusal(text::views(values@)) == Some(message@),
            Ok(target) => {
                let words = tokens::words_of(text::views(values@), delete_words())->Ok_0;
                let local = target.deletion_packing == DeletionPackingArg::LocalRepack;
                &&& delete_refusal(text::views(values@)) is None
                &&& target.path@ == words.paths[0]
                &&& text::views(target.selectors@) == words.paths.skip(1)
                &&& target.deletion_packing == words.deletion_packing.unwrap_or(
                    DeletionPackingArg::LocalRepack,
                )
                &&& target.write == words.mutation_settings(zstd_level, local)
                &&& target.operation_options.reader_options.v1_key_field_index == key_field_index
                &&& target.operation_options.v2 == Some(
                    target.write.page_options_for(DEFAULT_PAGE_SIZE),
                )
                &&& target.operation_options.deletion_packing == target.deletion_packing.packing()
                &&& target.compress_partial_page == (local || words.compress_partial_page)
            },
        },
{
    let parsed = match parse_command_tokens(values, false, true, false, false, true) {
        Ok(parsed) => parsed,
        Err(message) => {
            return Err(message);
        },
    };
    let deletion_packing: DeletionPackingArg = match parsed.deletion_packing {
        Some(deletion_packing) => deletion_packing,
        None => DeletionPackingArg::LocalRepack,
    };
    if parsed.paths.len() == 0 {
        return Err("delete expects PATH and at least one SELECTOR after tokens".to_owned());
    }
    if parsed.paths.len() == 1 {
        return Err("delete requires at least one selector".to_owned());
    }
    let local: bool = deletion_packing == DeletionPackingArg::LocalRepack;
    let (operation_options, write) = parsed.operation_options(
        key_field_index,
        zstd_level,
        deletion_packing.deletion_packing(),
        local,
    );
    let selectors: Vec<String> = text::texts_from(parsed.paths.as_slice(), 1);
    assert(text::views(selectors@) == parsed@.paths.skip(1));
    Ok(
        DeleteTarget {
            path: parsed.paths[0].clone(),
            selectors,
            deletion_packing,
            operation_options,
            write,
            compress_partial_page: local || write.compress_partial_page,
        },
    )
}

/// What `split` was asked to do.
#[derive(Debug)]
pub struct SplitTarget {
    pub input: String,
    pub output_dir: String,
    pub keys: Vec<String>,
    pub page_size: u32,
    pub operation_options: OperationOptions,
    pub write: V2WriteOptions,
}

/// Why the arguments of `split` are refused, if they are.
pub open spec fn split_refusal(values: Seq<Seq<char>>) -> Option<Seq<char>> {
    match tokens::words_of(values, split_words()) {
        Err(message) => Some(message),
        Ok(words) => if words.paths.len() < 3 {
            Some("split expects INPUT OUTPUT_DIR and at least one FIRST_KEY after tokens"@)
        } else {
            None
        },
    }
}

/// The file, the directory, the keys and the settings of `split`.
pub fn parse_split_target(
    values: &[String],
    key_field_index: usize,
    zstd_level: Option<i32>,
) -> (result: Result<SplitTarget, String>)
    ensures
        match result {
            Err(message) => split_refusal(text::views(values@)) == Some(message@),
            Ok(target) => {
                let words = tokens::words_of(text::views(values@), split_words())->Ok_0;
                &&& split_refusal(text::views(values@)) is None
                &&& target.input@ == words.paths[0]
                &&& target.output_dir@ == words.paths[1]
                &&& text::views(target.keys@) == words.paths.skip(2)
                &&& target.page_size == words.page_size.unwrap_or(DEFAULT_PAGE_SIZE)
                &&& target.write == words.mutation_settings(zstd_level, false)
                &&& target.operation_options.reader_options.v1_key_field_index == key_field_index
                &&& target.operation_options.v2 == Some(
                    target.write.page_options_for(DEFAULT_PAGE_SIZE),
                )
                &&& target.operation_options.deletion_packing == DeletionPacking::LocalRepack
            },
        },
{
    let parsed = match parse_command_tokens(values, false, true, true, false, false) {
        Ok(parsed) => parsed,
        Err(message) => {
            return Err(message);
        },
    };
    if parsed.paths.len() < 3 {
        return Err(
            "split expects INPUT OUTPUT_DIR and at least one FIRST_KEY after tokens".to_owned(),
        );
    }
    let (operation_options, write) = parsed.operation_options(
        key_field_index,
        zstd_level,
        DeletionPacking::LocalRepack,
        false,
    );
    let keys: Vec<String> = text::texts_from(parsed.paths.as_slice(), 2);
    assert(text::views(keys@) == parsed@.paths.skip(2));
    let page_size: u32 = match parsed.page_size {
        Some(page_size) => page_size,
        None => DEFAULT_PAGE_SIZE,
    };
    Ok(
        SplitTarget {
            input: parsed.paths[0].clone(),
            output_dir: parsed.paths[1].clone(),
            keys,
            page_size,
            operation_options,
            write,
        },
    )
}

/// What `concat` was asked to do.
#[derive(Debug)]
pub struct ConcatTarget {
    pub output: String,
    pub inputs: Vec<String>,
    pub format: TargetFormat,
    pub page_size: u32,
    pub operation_options: OperationOptions,
    pub write: V2WriteOptions,
}

/// Why the arguments of `concat` are refused, if they are.
pub open spec fn concat_refusal(values: Seq<Seq<char>>) -> Option<Seq<char>> {
    match tokens::words_of(values, output_words()) {
        Err(message) => Some(message),
        Ok(words) => if words.paths.len() < 2 {
            Some("concat expects OUTPUT and at least one INPUT after tokens"@)
        } else if words.format == Some(TargetFormat::V1) && words.asks_for_v2() {
            Some("v2 write tokens are not valid when concatenating to v1"@)
        } else {
            None
        },
    }
}

/// The output, the inputs and the settings of `concat`.
pub fn parse_concat_target(
    values: &[String],
    key_field_index: usize,
    zstd_level: Option<i32>,
) -> (result: Result<ConcatTarget, String>)
    ensures
        match result {
            Err(message) => concat_refusal(text::views(values@)) == Some(message@),
            Ok(target) => {
                let words = tokens::words_of(text::views(values@), output_words())->Ok_0;
                &&& concat_refusal(text::views(values@)) is None
                &&& target.output@ == words.paths[0]
                &&& text::views(target.inputs@) == words.paths.skip(1)
                &&& target.format == words.format.unwrap_or(DEFAULT_TARGET_FORMAT)
                &&& target.page_size == words.page_size.unwrap_or(DEFAULT_PAGE_SIZE)
                &&& target.write == words.mutation_settings(zstd_level, false)
                &&& target.operation_options.reader_options.v1_key_field_index == key_field_index
                &&& target.operation_options.v2 == Some(
                    target.write.page_options_for(DEFAULT_PAGE_SIZE),
                )
                &&& target.operation_options.deletion_packing == DeletionPacking::LocalRepack
            },
        },
{
    let parsed = match parse_command_tokens(values, true, true, true, false, false) {
        Ok(parsed) => parsed,
        Err(message) => {
            return Err(message);
        },
    };
    if parsed.paths.len() < 2 {
        return Err("concat expects OUTPUT and at least one INPUT after tokens".to_owned());
    }
    let format: TargetFormat = match parsed.format {
        Some(format) => format,
        None => DEFAULT_TARGET_FORMAT,
    };
    if format == TargetFormat::V1 && parsed.has_v2_write_tokens() {
        return Err("v2 write tokens are not valid when concatenating to v1".to_owned());
    }
    let (operation_options, write) = parsed.operation_options(
        key_field_index,
        zstd_level,
        DeletionPacking::LocalRepack,
        false,
    );
    let inputs: Vec<String> = text::texts_from(parsed.paths.as_slice(), 1);
    assert(text::views(inputs@) == parsed@.paths.skip(1));
    let page_size: u32 = match parsed.page_size {
        Some(page_size) => page_size,
        None => DEFAULT_PAGE_SIZE,
    };
    Ok(
        ConcatTarget {
            output: parsed.paths[0].clone(),
            inputs,
            format,
            page_size,
            operation_options,
            write,
        },
    )
}

/// What the arguments of `create` say, all in all.
#[verifier::ext_equal]
pub struct CreateWords {
    pub format: Option<TargetFormat>,
    pub page_size: Option<u32>,
    pub paths: Seq<Seq<char>>,
}

/// What the arguments of `create` say once one more is taken in, or why it cannot be.
pub open spec fn with_create_value(words: CreateWords, value: Seq<char>) -> Result<
    CreateWords,
    Seq<char>,
> {
    if let Some(format) = arguments::target_format(value) {
        if words.format is Some {
            Err(tokens::duplicate("format"@))
        } else {
            Ok(CreateWords { format: Some(format), ..words })
        }
    } else if let Some(size) = tokens::page_size_token(value) {
        match size {
            Err(message) => Err(message),
            Ok(size) => if words.page_size is Some {
                Err(tokens::duplicate("page size"@))
            } else {
                Ok(CreateWords { page_size: Some(size), ..words })
            },
        }
    } else if tokens::is_reserved(value) {
        Err("token '"@ + value + "' is not valid for new"@)
    } else {
        Ok(CreateWords { paths: words.paths.push(value), ..words })
    }
}

/// What the arguments of `create` say, or what is wrong with the first that is wrong.
pub open spec fn create_words_of(values: Seq<Seq<char>>) -> Result<CreateWords, Seq<char>>
    decreases values.len(),
{
    if values.len() == 0 {
        Ok(CreateWords { format: None, page_size: None, paths: Seq::empty() })
    } else {
        match create_words_of(values.drop_last()) {
            Ok(words) => with_create_value(words, values.last()),
            Err(message) => Err(message),
        }
    }
}

/// Why the arguments of `create` are refused, if they are.
pub open spec fn create_refusal(values: Seq<Seq<char>>) -> Option<Seq<char>> {
    match create_words_of(values) {
        Err(message) => Some(message),
        Ok(words) => if words.format == Some(TargetFormat::V1) && words.page_size is Some {
            Some("page size token is not valid when creating v1"@)
        } else if words.paths.len() == 0 {
            Some("new expects OUTPUT or FORMAT OUTPUT"@)
        } else if words.paths.len() > 1 {
            Some("new expects exactly one output path"@)
        } else {
            None
        },
    }
}

proof fn create_error_stays(values: Seq<Seq<char>>, count: int)
    requires
        0 <= count <= values.len(),
        create_words_of(values.take(count)) is Err,
    ensures
        create_words_of(values) == create_words_of(values.take(count)),
    decreases values.len() - count,
{
    if count < values.len() {
        let next = values.take(count + 1);
        assert(next.drop_last() == values.take(count));
        create_error_stays(values, count + 1);
    } else {
        assert(values.take(count) == values);
    }
}

/// The format, the output and the page size of `create`.
pub fn parse_create_target(values: &[String]) -> (result: Result<
    (TargetFormat, String, u32),
    String,
>)
    ensures
        match result {
            Err(message) => create_refusal(text::views(values@)) == Some(message@),
            Ok((format, output, page_size)) => {
                let words = create_words_of(text::views(values@))->Ok_0;
                &&& create_refusal(text::views(values@)) is None
                &&& format == words.format.unwrap_or(DEFAULT_TARGET_FORMAT)
                &&& output@ == words.paths[0]
                &&& page_size == words.page_size.unwrap_or(DEFAULT_PAGE_SIZE)
            },
        },
{
    let ghost words = text::views(values@);
    let mut format: Option<TargetFormat> = None;
    let mut page_size: Option<u32> = None;
    let mut paths: Vec<String> = Vec::new();
    let mut i: usize = 0;
    assert(words.take(0) == Seq::<Seq<char>>::empty());
    assert(text::views(paths@) == Seq::<Seq<char>>::empty());
    while i < values.len()
        invariant
            i <= values@.len(),
            words == text::views(values@),
            create_words_of(words.take(i as int)) == Ok::<CreateWords, Seq<char>>(
                CreateWords { format, page_size, paths: text::views(paths@) },
            ),
        decreases values@.len() - i,
    {
        let value: &str = values[i].as_str();
        let ghost taken = words.take(i as int + 1);
        let ghost before = CreateWords { format, page_size, paths: text::views(paths@) };
        assert(taken.drop_last() == words.take(i as int));
        assert(taken.last() == value@);
        let outcome: Result<(), String> = if let Some(parsed) = match_target_format(value) {
            set_once(&mut format, parsed, "format")
        } else if let Some(parsed) = parse_page_size_token(value) {
            match parsed {
                Ok(parsed) => set_once(&mut page_size, parsed, "page size"),
                Err(message) => Err(message),
            }
        } else if is_any_reserved_token(value) {
            Err(text::concat3("token '", value, "' is not valid for new"))
        } else {
            paths.push(values[i].clone());
            assert(text::views(paths@) == before.paths.push(value@));
            Ok(())
        };
        match outcome {
            Ok(_) => {},
            Err(message) => {
                proof {
                    assert(create_words_of(taken) == Err::<CreateWords, Seq<char>>(message@));
                    create_error_stays(words, i as int + 1);
                }
                return Err(message);
            },
        }
        i = i + 1;
    }
    assert(words.take(i as int) == words);
    let chosen: TargetFormat = match format {
        Some(format) => format,
        None => DEFAULT_TARGET_FORMAT,
    };
    if chosen == TargetFormat::V1 && page_size.is_some() {
        return Err("page size token is not valid when creating v1".to_owned());
    }
    if paths.len() == 0 {
        return Err("new expects OUTPUT or FORMAT OUTPUT".to_owned());
    }
    if paths.len() > 1 {
        return Err("new expects exactly one output path".to_owned());
    }
    let size: u32 = match page_size {
        Some(page_size) => page_size,
        None => DEFAULT_PAGE_SIZE,
    };
    Ok((chosen, paths[0].clone(), size))
}

/// What the arguments of `bench` say, all in all.
#[verifier::ext_equal]
pub struct BenchWords {
    pub mode: Option<BenchMode>,
    pub paths: Seq<Seq<char>>,
}

/// What the arguments of `bench` say, or what is wrong with the first that is wrong.
pub open spec fn bench_words_of(values: Seq<Seq<char>>) -> Result<BenchWords, Seq<char>>
    decreases values.len(),
{
    if values.len() == 0 {
        Ok(BenchWords { mode: None, paths: Seq::empty() })
    } else {
        match bench_words_of(values.drop_last()) {
            Err(message) => Err(message),
            Ok(words) => {
                let value = values.last();
                if let Some(mode) = arguments::bench_mode(value) {
                    if words.mode is Some {
                        Err(tokens::duplicate("bench mode"@))
                    } else {
                        Ok(BenchWords { mode: Some(mode), ..words })
                    }
                } else if tokens::is_reserved(value) {
                    Err("token '"@ + value + "' is not valid for bench"@)
                } else {
                    Ok(BenchWords { paths: words.paths.push(value), ..words })
                }
            },
        }
    }
}

/// Why the arguments of `bench` are refused, if they are.
pub open spec fn bench_refusal(values: Seq<Seq<char>>) -> Option<Seq<char>> {
    match bench_words_of(values) {
        Err(message) => Some(message),
        Ok(words) => if words.paths.len() == 0 {
            Some("bench expects PATH or MODE PATH"@)
        } else if words.paths.len() > 1 {
            Some("bench expects exactly one input path"@)
        } else {
            None
        },
    }
}

proof fn bench_error_stays(values: Seq<Seq<char>>, count: int)
    requires
        0 <= count <= values.len(),
        bench_words_of(values.take(count)) is Err,
    ensures
        bench_words_of(values) == bench_words_of(values.take(count)),
    decreases values.len() - count,
{
    if count < values.len() {
        let next = values.take(count + 1);
        assert(next.drop_last() == values.take(count));
        bench_error_stays(values, count + 1);
    } else {
        assert(values.take(count) == values);
    }
}

/// The mode and the input of `bench`.
pub fn parse_bench_target(values: &[String]) -> (result: Result<(BenchMode, String), String>)
    ensures
        match result {
            Err(message) => bench_refusal(text::views(values@)) == Some(message@),
            Ok((mode, path)) => {
                let words = bench_words_of(text::views(values@))->Ok_0;
                &&& bench_refusal(text::views(values@)) is None
                &&& mode == words.mode.unwrap_or(BenchMode::ConversionMatrix)
                &&& path@ == words.paths[0]
            },
        },
{
    let ghost words = text::views(values@);
    let mut mode: Option<BenchMode> = None;
    let mut paths: Vec<String> = Vec::new();
    let mut i: usize = 0;
    assert(words.take(0) == Seq::<Seq<char>>::empty());
    assert(text::views(paths@) == Seq::<Seq<char>>::empty());
    while i < values.len()
        invariant
            i <= values@.len(),
            words == text::views(values@),
            bench_words_of(words.take(i as int)) == Ok::<BenchWords, Seq<char>>(
                BenchWords { mode, paths: text::views(paths@) },
            ),
        decreases values@.len() - i,
    {
        let value: &str = values[i].as_str();
        let ghost taken = words.take(i as int + 1);
        let ghost before = text::views(paths@);
        assert(taken.drop_last() == words.take(i as int));
        assert(taken.last() == value@);
        let outcome: Result<(), String> = if let Some(parsed) = match_bench_mode(value) {
            set_once(&mut mode, parsed, "bench mode")
        } else if is_any_reserved_token(value) {
            Err(text::concat3("token '", value, "' is not valid for bench"))
        } else {
            paths.push(values[i].clone());
            assert(text::views(paths@) == before.push(value@));
            Ok(())
        };
        match outcome {
            Ok(_) => {},
            Err(message) => {
                proof {
                    assert(bench_words_of(taken) == Err::<BenchWords, Seq<char>>(message@));
                    bench_error_stays(words, i as int + 1);
                }
                return Err(message);
            },
        }
        i = i + 1;
    }
    assert(words.take(i as int) == words);
    if paths.len() == 0 {
        return Err("bench expects PATH or MODE PATH".to_owned());
    }
    if paths.len() > 1 {
        return Err("bench expects exactly one input path".to_owned());
    }
    let chosen: BenchMode = match mode {
        Some(mode) => mode,
        None => BenchMode::ConversionMatrix,
    };
    Ok((chosen, paths[0].clone()))
}

/// Which commands know which words: only `convert` and `concat` take a format, only they and `split`
/// a page size, and only `delete` a deletion packing; all of them take write settings.
pub proof fn commands_know_their_words(value: Seq<char>)
    ensures
        arguments::target_format(value) matches Some(format) ==> tokens::token_of(
            value,
            output_words(),
        ) == tokens::Token::Format(format),
        !(tokens::token_of(value, split_words()) is Format),
        !(tokens::token_of(value, append_words()) is Format),
        !(tokens::token_of(value, delete_words()) is Format),
        arguments::target_format(value) is None ==> (tokens::page_size_token(value) matches Some(
            Ok(size),
        ) ==> tokens::token_of(value, output_words()) == tokens::Token::PageSize(size)
            && tokens::token_of(value, split_words()) == tokens::Token::PageSize(size)),
        tokens::page_size_token(value) is Some ==> tokens::token_of(value, append_words())
            is Refused && tokens::token_of(value, delete_words()) is Refused,
        !(tokens::token_of(value, output_words()) is DeletionPacking),
        !(tokens::token_of(value, split_words()) is DeletionPacking),
        !(tokens::token_of(value, append_words()) is DeletionPacking),
        arguments::bench_mode(value) is Some && arguments::target_format(value) is None ==> {
            &&& !(tokens::token_of(value, output_words()) is Path)
            &&& !(tokens::token_of(value, split_words()) is Path)
            &&& !(tokens::token_of(value, append_words()) is Path)
            &&& !(tokens::token_of(value, delete_words()) is Path)
        },
{
}

/// Whether an argument asks for v1 files.
pub open spec fn asks_for_v1(values: Seq<Seq<char>>) -> bool {
    exists|i: int| 0 <= i < values.len() && #[trigger] values[i] == "v1"@
}

/// Whether an argument asks for something that only v2 files have.
pub open spec fn asks_for_v2(values: Seq<Seq<char>>, allowed: Allowed) -> bool {
    exists|i: int|
        0 <= i < values.len() && tokens::is_v2_word(#[trigger] tokens::token_of(values[i], allowed))
}

proof fn v1_is_asked_for_by_its_word(values: Seq<Seq<char>>)
    requires
        tokens::words_of(values, output_words()) is Ok,
    ensures
        tokens::words_of(values, output_words())->Ok_0.format == Some(TargetFormat::V1) <==>
            asks_for_v1(values),
{
    let words = tokens::words_of(values, output_words())->Ok_0;
    tokens::nothing_but_words_counts(values, output_words());
    if asks_for_v1(values) {
        let i = choose|i: int| 0 <= i < values.len() && #[trigger] values[i] == "v1"@;
        arguments::formats_are_what_they_are_called(values[i]);
        tokens::every_word_counts(values, output_words(), i);
    }
    if words.format == Some(TargetFormat::V1) {
        let token = tokens::Token::Format(TargetFormat::V1);
        assert(tokens::stands_among(values, output_words(), token));
        let i = choose|i: int|
            0 <= i < values.len() && #[trigger] tokens::token_of(values[i], output_words())
                == token;
        arguments::formats_are_what_they_are_called(values[i]);
        assert(values[i] == "v1"@);
    }
}

/// A command is refused exactly if one of its arguments is, or if it names fewer or more paths than
/// it needs: `convert` two, `append`, `delete` and `concat` two or more, `split` three or more. Where
/// v1 files are asked for, `convert` and `concat` also refuse every word that only v2 files have.
pub proof fn commands_take_so_many_paths(values: Seq<Seq<char>>, zstd_level: i32)
    ensures
        convert_refusal(values) is None <==> {
            &&& tokens::words_of(values, output_words()) is Ok
            &&& tokens::paths_among(values, output_words()).len() == 2
            &&& !(asks_for_v1(values) && asks_for_v2(values, output_words()))
        },
        concat_refusal(values) is None <==> {
            &&& tokens::words_of(values, output_words()) is Ok
            &&& tokens::paths_among(values, output_words()).len() >= 2
            &&& !(asks_for_v1(values) && asks_for_v2(values, output_words()))
        },
        append_refusal(values, zstd_level) is None <==> {
            &&& tokens::words_of(values, append_words()) is Ok
            &&& tokens::paths_among(values, append_words()).len() >= 2
            &&& 1 <= zstd_level <= 22
        },
        delete_refusal(values) is None <==> {
            &&& tokens::words_of(values, delete_words()) is Ok
            &&& tokens::paths_among(values, delete_words()).len() >= 2
        },
        split_refusal(values) is None <==> {
            &&& tokens::words_of(values, split_words()) is Ok
            &&& tokens::paths_among(values, split_words()).len() >= 3
        },
{
    if tokens::words_of(values, output_words()) is Ok {
        tokens::paths_keep_their_order(values, output_words());
        tokens::v2_is_asked_for_by_words(values, output_words());
        v1_is_asked_for_by_its_word(values);
    }
    if tokens::words_of(values, append_words()) is Ok {
        tokens::paths_keep_their_order(values, append_words());
    }
    if tokens::words_of(values, delete_words()) is Ok {
        tokens::paths_keep_their_order(values, delete_words());
    }
    if tokens::words_of(values, split_words()) is Ok {
        tokens::paths_keep_their_order(values, split_words());
    }
}

/// Whether an argument of `create` is a path.
pub open spec fn is_created_path(value: Seq<char>) -> bool {
    arguments::target_format(value) is None && tokens::page_size_token(value) is None
        && !tokens::is_reserved(value)
}

/// The arguments of `create` that are words are recorded, all others are paths in their order, and a
/// second format or page size is refused.
pub proof fn created_words_count(values: Seq<Seq<char>>, index: int)
    requires
        create_words_of(values) is Ok,
        0 <= index < values.len(),
    ensures
        create_words_of(values)->Ok_0.paths == values.filter(
            |value: Seq<char>| is_created_path(value),
        ),
        arguments::target_format(values[index]) is Some ==> create_words_of(values)->Ok_0.format
            == arguments::target_format(values[index]),
        arguments::target_format(values[index]) is None ==> (tokens::page_size_token(
            values[index],
        ) matches Some(size) ==> size is Ok && create_words_of(values)->Ok_0.page_size == Some(
            size->Ok_0,
        )),
        forall|k: int|
            0 <= k < values.len() && k != index && arguments::target_format(values[index]) is Some
                ==> arguments::target_format(#[trigger] values[k]) is None,
    decreases values.len(),
{
    reveal(Seq::filter);
    let shorter = values.drop_last();
    let last = values.len() - 1;
    let place = if index < last { index } else { 0 };
    if last > 0 {
        created_words_count(shorter, place);
        assert(forall|k: int| 0 <= k < shorter.len() ==> #[trigger] values[k] == shorter[k]);
        assert forall|k: int|
            0 <= k < values.len() && k != index && arguments::target_format(values[index]) is Some
                implies arguments::target_format(#[trigger] values[k]) is None by {
            if k < last {
                created_words_count(shorter, k);
            }
        }
    } else {
        assert(shorter.filter(|value: Seq<char>| is_created_path(value)) == Seq::<
            Seq<char>,
        >::empty());
    }
}

/// `create` makes one file, and none of v1 with a page size; `bench` reads one file.
pub proof fn one_file_is_created_and_measured(values: Seq<Seq<char>>)
    ensures
        create_refusal(values) is None ==> values.filter(
            |value: Seq<char>| is_created_path(value),
        ).len() == 1,
        create_refusal(values) is None ==> !(create_words_of(values)->Ok_0.format == Some(
            TargetFormat::V1,
        ) && create_words_of(values)->Ok_0.page_size is Some),
        bench_refusal(values) is None ==> values.filter(
            |value: Seq<char>| arguments::bench_mode(value) is None,
        ).len() == 1,
        bench_refusal(values) is None ==> forall|i: int|
            0 <= i < values.len() && arguments::bench_mode(#[trigger] values[i]) is Some
                ==> bench_words_of(values)->Ok_0.mode == arguments::bench_mode(values[i]),
{
    if create_refusal(values) is None {
        created_words_count(values, 0);
    }
    if bench_refusal(values) is None {
        benched_paths_are_counted(values);
        assert forall|i: int|
            0 <= i < values.len() && arguments::bench_mode(#[trigger] values[i]) is Some
                implies bench_words_of(values)->Ok_0.mode == arguments::bench_mode(values[i]) by {
            benched_words_count(values, i);
        }
    }
}

proof fn benched_paths_are_counted(values: Seq<Seq<char>>)
    requires
        bench_words_of(values) is Ok,
    ensures
        bench_words_of(values)->Ok_0.paths == values.filter(
            |value: Seq<char>| arguments::bench_mode(value) is None,
        ),
    decreases values.len(),
{
    reveal(Seq::filter);
    if values.len() > 0 {
        benched_paths_are_counted(values.drop_last());
    }
}

proof fn benched_words_count(values: Seq<Seq<char>>, index: int)
    requires
        bench_words_of(values) is Ok,
        0 <= index < values.len(),
        arguments::bench_mode(values[index]) is Some,
    ensures
        bench_words_of(values)->Ok_0.mode == arguments::bench_mode(values[index]),
    decreases values.len(),
{
    if index < values.len() - 1 {
        benched_words_count(values.drop_last(), index);
    }
}

} // verus!

use fwob::cli::arguments::{
    match_bench_mode, match_target_format, BenchMode, CodecArg, DeletionPackingArg, EncodingArg,
    PagePackingArg, TargetFormat, V2WriteArgs, V2WriteOptions,
};
use fwob::cli::targets::{
    parse_append_target, parse_bench_target, parse_concat_target, parse_convert_target,
    parse_create_target, parse_delete_target, parse_split_target,
};
use fwob::cli::tokens::{
    is_any_reserved_token, parse_command_tokens, parse_page_size_token, validate_zstd_level,
    ParsedTokens,
};
use fwob::options::{
    Codec, CodecSelection, DeletionPacking, Encoding, EncodingSelection, PagePacking,
    DEFAULT_CODEC, DEFAULT_ENCODING, DEFAULT_PAGE_PACKING, DEFAULT_PAGE_SIZE, DEFAULT_ZSTD_LEVEL,
};

fn words(values: &[&str]) -> Vec<String> {
    values.iter().map(|value| value.to_string()).collect()
}

const LEVEL: V2WriteArgs = V2WriteArgs { zstd_level: DEFAULT_ZSTD_LEVEL };

#[test]
fn positional_tokens_are_case_sensitive() {
    assert!(matches!(match_target_format("v2"), Some(TargetFormat::V2)));
    assert!(match_target_format("V2").is_none());
    assert!(matches!(match_bench_mode("range"), Some(BenchMode::Range)));
    assert!(match_bench_mode("RANGE").is_none());

    let values = vec!["ZSTD".to_string(), "input.fwob".to_string()];
    let parsed = parse_command_tokens(&values, false, true, false, false, false).unwrap();
    assert_eq!(parsed.paths, ["ZSTD", "input.fwob"]);
    assert_eq!(parsed.codec, None);
}

#[test]
fn write_defaults_are_shared_by_creation_and_mutation_commands() {
    let creation = V2WriteOptions::from_args(V2WriteArgs { zstd_level: DEFAULT_ZSTD_LEVEL });
    let parsed = ParsedTokens::default();
    let (mutation, resolved) =
        parsed.operation_options(0, None, DeletionPacking::LocalRepack, false);
    let mutation = mutation.v2.expect("mutation defaults are explicit");

    assert_eq!(resolved.codec, creation.codec);
    assert_eq!(resolved.encoding, creation.encoding);
    assert_eq!(resolved.zstd_level, creation.zstd_level);
    assert_eq!(resolved.page_packing, creation.page_packing);
    assert_eq!(mutation.codec, DEFAULT_CODEC);
    assert_eq!(mutation.encoding, DEFAULT_ENCODING);
    assert_eq!(mutation.zstd_level, DEFAULT_ZSTD_LEVEL);
    assert_eq!(mutation.page_packing, DEFAULT_PAGE_PACKING);
}

#[test]
fn convert_defaults_to_v2() {
    assert!(matches!(
        parse_convert_target(
            &["input.fwob".to_owned(), "output.fwob".to_owned()],
            V2WriteArgs { zstd_level: DEFAULT_ZSTD_LEVEL },
        )
        .unwrap()
        .0,
        TargetFormat::V2
    ));
}

#[test]
fn tokens_stand_anywhere_among_paths() {
    let (format, input, output, page_size, write) = parse_convert_target(
        &words(&["in", "tight-fit", "verify", "v2", "1MiB", "out", "lz4", "row-raw"]),
        LEVEL,
    )
    .unwrap();
    assert_eq!(format, TargetFormat::V2);
    assert_eq!((input.as_str(), output.as_str()), ("in", "out"));
    assert_eq!(page_size, 1_048_576);
    assert_eq!(write.codec, CodecArg::Lz4);
    assert_eq!(write.encoding, EncodingArg::RowRaw);
    assert_eq!(write.page_packing, PagePackingArg::TightFit);
    assert!(write.verify);
    assert!(!write.compress_partial_page);
}

#[test]
fn prefixed_reserved_words_are_paths() {
    let (_, input, output, _, write) =
        parse_convert_target(&words(&["./row-raw", "./v1"]), LEVEL).unwrap();
    assert_eq!((input.as_str(), output.as_str()), ("./row-raw", "./v1"));
    assert_eq!(write.encoding, EncodingArg::ColumnarBasic);
}

#[test]
fn smallest_is_a_codec_and_an_encoding() {
    let (_, _, _, _, write) =
        parse_convert_target(&words(&["smallest", "a", "b"]), LEVEL).unwrap();
    assert_eq!(write.codec, CodecArg::Smallest);
    assert_eq!(write.encoding, EncodingArg::Smallest);
    let options = write.page_options(DEFAULT_PAGE_SIZE);
    assert_eq!(options.codec, Codec::Zstd);
    assert_eq!(options.codec_selection, CodecSelection::Smallest);
    assert_eq!(options.encoding_selection, EncodingSelection::Smallest);
    assert_eq!(
        parse_convert_target(&words(&["smallest", "row-raw", "a", "b"]), LEVEL).unwrap_err(),
        "duplicate encoding token"
    );
}

#[test]
fn duplicate_words_are_refused() {
    assert!(parse_convert_target(&words(&["zstd", "lz4", "a", "b"]), LEVEL)
        .unwrap_err()
        .contains("codec"));
    assert!(parse_convert_target(&words(&["verify", "verify", "a", "b"]), LEVEL)
        .unwrap_err()
        .contains("verify"));
    assert!(parse_convert_target(&words(&["v1", "v2", "a", "b"]), LEVEL)
        .unwrap_err()
        .contains("format"));
    assert!(parse_convert_target(&words(&["1KiB", "2KiB", "a", "b"]), LEVEL)
        .unwrap_err()
        .contains("page size"));
}

#[test]
fn v1_output_takes_no_v2_words() {
    assert_eq!(
        parse_convert_target(&words(&["v1", "zstd", "a", "b"]), LEVEL).unwrap_err(),
        "v2 write tokens are not valid when converting to v1"
    );
    assert_eq!(
        parse_concat_target(&words(&["v1", "zstd", "a", "b"]), 0, None).unwrap_err(),
        "v2 write tokens are not valid when concatenating to v1"
    );
    assert_eq!(
        parse_create_target(&words(&["v1", "1KiB", "a"])).unwrap_err(),
        "page size token is not valid when creating v1"
    );
    assert!(parse_convert_target(&words(&["v1", "a", "b"]), LEVEL).is_ok());
}

#[test]
fn wrong_numbers_of_paths_are_refused() {
    assert_eq!(
        parse_convert_target(&words(&["a"]), LEVEL).unwrap_err(),
        "convert expects exactly input and output paths after tokens"
    );
    assert_eq!(
        parse_append_target(&words(&["a", "zstd"]), LEVEL).unwrap_err(),
        "append expects a target and at least one input after tokens"
    );
    assert_eq!(
        parse_delete_target(&words(&["zstd"]), 0, None).unwrap_err(),
        "delete expects PATH and at least one SELECTOR after tokens"
    );
    assert_eq!(
        parse_delete_target(&words(&["a"]), 0, None).unwrap_err(),
        "delete requires at least one selector"
    );
    assert_eq!(
        parse_split_target(&words(&["a", "b"]), 0, None).unwrap_err(),
        "split expects INPUT OUTPUT_DIR and at least one FIRST_KEY after tokens"
    );
    assert_eq!(
        parse_concat_target(&words(&["a"]), 0, None).unwrap_err(),
        "concat expects OUTPUT and at least one INPUT after tokens"
    );
    assert_eq!(
        parse_create_target(&words(&["v2"])).unwrap_err(),
        "new expects OUTPUT or FORMAT OUTPUT"
    );
    assert_eq!(
        parse_create_target(&words(&["a", "b"])).unwrap_err(),
        "new expects exactly one output path"
    );
    assert_eq!(
        parse_create_target(&words(&["zstd", "a"])).unwrap_err(),
        "token 'zstd' is not valid for new"
    );
    assert_eq!(
        parse_bench_target(&words(&["scan"])).unwrap_err(),
        "bench expects PATH or MODE PATH"
    );
    assert_eq!(
        parse_bench_target(&words(&["a", "b"])).unwrap_err(),
        "bench expects exactly one input path"
    );
    assert_eq!(
        parse_bench_target(&words(&["zstd", "a"])).unwrap_err(),
        "token 'zstd' is not valid for bench"
    );
}

#[test]
fn page_sizes_have_bounds_and_units() {
    for (word, size) in [
        ("1024B", 1024),
        ("2KB", 2000),
        ("1KiB", 1024),
        ("1MB", 1_000_000),
        ("16MiB", 16_777_216),
    ] {
        assert_eq!(parse_page_size_token(word), Some(Ok(size)), "{word}");
    }
    for word in ["1023B", "1KB", "17MiB", "0KiB"] {
        assert!(parse_page_size_token(word).unwrap().is_err(), "{word}");
    }
    for word in ["1mib", "MiB", "1.5MiB", "1024", "a1KiB"] {
        assert!(parse_page_size_token(word).is_none(), "{word}");
    }
}

#[test]
fn zstd_levels_have_bounds() {
    for level in [1, 6, 22] {
        assert!(validate_zstd_level(level).is_ok());
    }
    for level in [0, 23, -1] {
        assert!(validate_zstd_level(level).is_err());
    }
    assert_eq!(
        parse_append_target(&words(&["a", "b"]), V2WriteArgs { zstd_level: 0 }).unwrap_err(),
        "--zstd-level must be between 1 and 22"
    );
}

#[test]
fn reserved_words_are_reserved_everywhere() {
    for word in ["v1", "zstd", "row-raw", "tight-fit", "verify", "scan", "local-repack"] {
        assert!(is_any_reserved_token(word), "{word}");
    }
    for word in ["V1", "input.fwob", "1KiB", ""] {
        assert!(!is_any_reserved_token(word), "{word}");
    }
    assert_eq!(
        parse_split_target(&words(&["a", "b", "1", "local-repack"]), 0, None).unwrap_err(),
        "token 'local-repack' is not valid for this command"
    );
}

#[test]
fn deletion_compresses_what_it_packs_in_place() {
    let target = parse_delete_target(&words(&["a", "1..2", "3"]), 2, Some(9)).unwrap();
    assert_eq!(target.path, "a");
    assert_eq!(target.selectors, ["1..2", "3"]);
    assert_eq!(target.deletion_packing, DeletionPackingArg::LocalRepack);
    assert_eq!(target.operation_options.reader_options.v1_key_field_index, 2);
    let v2 = target.operation_options.v2.unwrap();
    assert!(v2.compress_partial_page);
    assert_eq!(v2.zstd_level, 9);
    assert_eq!(v2.page_packing, PagePacking::EstimateShrink);
    assert_eq!(v2.encoding, Encoding::ColumnarBasicV1);
    assert_eq!(
        v2.encoding_selection,
        EncodingSelection::Fixed(Encoding::ColumnarBasicV1)
    );

    let target = parse_delete_target(&words(&["a", "repack-to-end", "1"]), 0, None).unwrap();
    assert_eq!(
        target.operation_options.deletion_packing,
        DeletionPacking::RepackToEnd
    );
    assert!(!target.operation_options.v2.unwrap().compress_partial_page);
}

#[test]
fn split_concat_and_bench_targets() {
    let split = parse_split_target(&words(&["in", "dir", "10", "20", "1MiB"]), 0, None).unwrap();
    assert_eq!((split.input.as_str(), split.output_dir.as_str()), ("in", "dir"));
    assert_eq!(split.keys, ["10", "20"]);
    assert_eq!(split.page_size, 1_048_576);

    let concat = parse_concat_target(&words(&["out", "a", "b"]), 0, None).unwrap();
    assert_eq!(concat.output, "out");
    assert_eq!(concat.inputs, ["a", "b"]);
    assert_eq!(concat.format, TargetFormat::V2);
    assert_eq!(concat.page_size, DEFAULT_PAGE_SIZE);

    assert_eq!(
        parse_bench_target(&words(&["a"])).unwrap(),
        (BenchMode::ConversionMatrix, "a".to_owned())
    );
    assert_eq!(
        parse_bench_target(&words(&["a", "random-page"])).unwrap(),
        (BenchMode::RandomPage, "a".to_owned())
    );
    let append = parse_append_target(&words(&["t", "a", "verify", "b"]), LEVEL).unwrap();
    assert_eq!(append.target, "t");
    assert_eq!(append.inputs, ["a", "b"]);
    assert!(append.write.verify);
}

#[test]
fn words_stand_in_any_order() {
    let parse = |values: &[&str]| parse_command_tokens(&words(values), true, true, true, false, true);
    let said = |values: &[&str]| {
        let parsed = parse(values).unwrap();
        (
            parsed.paths,
            parsed.format,
            parsed.codec,
            parsed.encoding,
            parsed.page_size,
            parsed.deletion_packing,
            parsed.verify,
        )
    };
    let first = said(&["a.fwob", "v2", "zstd", "512KiB", "row-raw", "verify", "b.fwob"]);
    assert_eq!(first.0, ["a.fwob", "b.fwob"]);
    assert_eq!(first.4, Some(524_288));
    let orders: [&[&str]; 3] = [
        &["verify", "row-raw", "512KiB", "a.fwob", "b.fwob", "zstd", "v2"],
        &["a.fwob", "b.fwob", "v2", "zstd", "verify", "512KiB", "row-raw"],
        &["zstd", "a.fwob", "verify", "b.fwob", "row-raw", "v2", "512KiB"],
    ];
    for order in orders {
        assert_eq!(said(order), first);
    }
    assert!(parse(&["zstd", "a.fwob", "smallest"]).is_err());
    assert!(parse(&["smallest", "zstd", "a.fwob"]).is_err());
}

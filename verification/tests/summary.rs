use fwob::cli::arguments::{V2WriteArgs, V2WriteOptions};
use fwob::cli::inspect::{
    field_semantic_name, field_type_name, format_field_value, format_frame_preview_rows,
    format_hex, format_signed, format_unsigned, frame_in_page, frame_out_of_range, inspect_v1,
    inspect_v2, locate_frame, preview_indices, print_schema, verify_v1, verify_v2, PreviewIndex,
    PreviewRow, V1Facts, V2Facts,
};
use fwob::cli::metadata::{collect_v2_metadata, PageFacts, V2Metadata};
use fwob::cli::operation_summary::{
    merge_v2_metadata, print_common_sections, print_operation_result, saturating_product,
    CommonSummary, FileStorage, OperationResult, PackingStats, StorageRatios, StorageSummary,
};
use fwob::key::Key;
use fwob::options::{Codec, Encoding};
use fwob::schema::{Field, FieldSemantic, FieldType, Schema, TimestampUnit};
use fwob::toml::TomlWriter;
use fwob::FormatVersion;

fn render(f: impl FnOnce(&mut TomlWriter)) -> String {
    let mut w = TomlWriter::new(String::new(), false);
    f(&mut w);
    w.into_inner()
}

fn page(frame_count: u32, first: i32, codec: Codec, encoding: Encoding) -> PageFacts {
    PageFacts {
        frame_count,
        compressed_len: 100,
        uncompressed_len: frame_count * 16,
        first_key: Key::I32(first),
        last_key: Key::I32(first + 9),
        codec,
        encoding,
    }
}

fn metadata() -> V2Metadata {
    collect_v2_metadata(
        &[
            page(10, 0, Codec::Zstd, Encoding::ColumnarBasicV1),
            page(30, 10, Codec::Lz4, Encoding::ColumnarDeltaV1),
            page(20, 20, Codec::Uncompressed, Encoding::RowRawV1),
        ],
        60,
        1024,
        4096,
        8000,
    )
}

fn ratios() -> StorageRatios {
    StorageRatios {
        average_frames_per_compressed_page: "20.00".to_owned(),
        payload_ratio: "0.3125".to_owned(),
        physical_ratio: "8.3333".to_owned(),
        page_payload_utilization: "0.1059".to_owned(),
    }
}

fn schema() -> Schema {
    Schema::new(
        "Tick",
        vec![
            Field::new("time", FieldType::SignedInteger, 4, 0)
                .with_semantic(FieldSemantic::UnixTimestamp(TimestampUnit::Seconds)),
            Field::new("name", FieldType::Utf8String, 4, 4),
            Field::new("x", FieldType::FloatingPoint, 8, 8),
        ],
        0,
    )
    .unwrap()
}

fn frame(index: u64, time: i32, name: &str) -> PreviewRow {
    let mut bytes = time.to_le_bytes().to_vec();
    bytes.extend_from_slice(format!("{name:<4}").as_bytes());
    bytes.extend_from_slice(&1.5f64.to_le_bytes());
    PreviewRow::Frame {
        index,
        bytes,
        fractions: vec![String::new(), String::new(), format!("{:.6}", 1.5)],
    }
}

#[test]
fn pages_add_up() {
    let metadata = metadata();
    assert_eq!(metadata.page_count, 3);
    assert_eq!(metadata.frame_count, 60);
    assert_eq!(metadata.payload_capacity_per_page, 944);
    assert_eq!(metadata.payload_capacity_total, 2832);
    assert_eq!(metadata.expected_physical_bytes, 4096 + 3 * 1024);
    assert_eq!(metadata.compressed_total, 300);
    assert_eq!(metadata.uncompressed_total, 960);
    assert_eq!(metadata.padding_bytes, 2532);
    assert_eq!((metadata.min_frames, metadata.max_frames), (10, 30));
    assert_eq!(metadata.first_key, Some(Key::I32(0)));
    assert_eq!(metadata.last_key, Some(Key::I32(29)));
    assert_eq!(metadata.compressed_page_frames, 40);
    assert_eq!(
        metadata.codec_none_pages + metadata.codec_zstd_pages + metadata.codec_lz4_pages,
        3
    );
    assert_eq!(metadata.encoding_columnar_delta_v1_pages, 1);

    let empty = collect_v2_metadata(&[], 0, 1024, 4096, 4096);
    assert_eq!((empty.min_frames, empty.max_frames), (u32::MAX, 0));
    assert_eq!(empty.first_key, None);
}

#[test]
fn files_add_up() {
    let v1 = |frame_count| FileStorage::V1 {
        frame_count,
        physical_bytes: 100,
        frame_length: 16,
    };
    assert_eq!(
        StorageSummary::collect(&[v1(2), v1(3)]).unwrap(),
        StorageSummary::V1 { frame_count: 5, physical_bytes: 200, raw_bytes: 80 }
    );
    let v2 = FileStorage::V2(metadata());
    let both = StorageSummary::collect(&[v2, v2]).unwrap();
    assert_eq!(both.frame_count(), 120);
    assert_eq!(both.page_count(), Some(6));
    assert_eq!(both.format_name(), "fwob-v2");
    let merged = both.v2_metadata().unwrap();
    assert_eq!(merged.payload_capacity_per_page, 944);
    assert_eq!(merged.compressed_total, 600);
    assert_eq!(merged.last_key, Some(Key::I32(29)));

    assert_eq!(
        StorageSummary::collect(&[]).unwrap_err(),
        "cannot infer storage format from an empty output list"
    );
    assert_eq!(
        StorageSummary::collect(&[v1(2), v2]).unwrap_err(),
        "operation outputs use mixed format versions"
    );
    assert_eq!(StorageSummary::empty(FormatVersion::V1, 1024).page_count(), None);
    assert_eq!(
        StorageSummary::empty(FormatVersion::V2, 1024)
            .v2_metadata()
            .unwrap()
            .payload_capacity_per_page,
        944
    );
}

#[test]
fn sums_stop_at_the_largest_number() {
    assert_eq!(saturating_product(u64::MAX, 2), u64::MAX);
    assert_eq!(saturating_product(3, 4), 12);
    let mut target = metadata();
    target.frame_count = u64::MAX - 1;
    merge_v2_metadata(&mut target, metadata());
    assert_eq!(target.frame_count, u64::MAX);
}

#[test]
fn operations_are_summarized() {
    let storage = StorageSummary::V2(metadata());
    let text = render(|w| {
        print_operation_result(
            w,
            &OperationResult {
                section: "split",
                storage,
                input: Some("in.fwob"),
                output: "parts",
                input_count: 1,
                verified: false,
                elapsed_seconds: "0.125",
            },
        )
    });
    assert_eq!(
        text,
        "[split]\ntarget_format = \"fwob-v2\"\ninput = \"in.fwob\"\noutput = \"parts\"\n\
         input_count = 1\nframes = 60\npages = 3\nverified = false\n\
         verification = \"skipped (run `fwob verify` or pass verify)\"\nelapsed_seconds = 0.125\n"
    );

    let ratios = ratios();
    let mut write = V2WriteOptions::from_args(V2WriteArgs { zstd_level: 6 });
    write.verify = true;
    let packing = PackingStats {
        first_page_attempts: 4,
        subsequent_average_attempts: "1.50".to_owned(),
        subsequent_min_attempts: 1,
        subsequent_max_attempts: 2,
        subsequent_pages: 9,
        window_frame_spans: vec!["1.00".to_owned(), "2.00".to_owned()],
        average_initial_window_attempts: "3.00".to_owned(),
        window_final_positions: vec!["0.5000".to_owned()],
        initial_windows: 5,
    };
    let summary = CommonSummary::of(storage, &ratios, 0, 1024, write, Some(&packing), Some(4));
    assert_eq!(
        render(|w| print_common_sections(w, &summary)),
        "\n[parameters]\ntarget_format = \"fwob-v2\"\nkey_field_index = 0\npage_size = 1024\n\
         parallelism = 4\ncodec = \"zstd\"\nencoding = \"columnar-basic\"\nzstd_level = 6\n\
         compress_partial_page = false\npage_packing = \"estimate-shrink\"\nverify = true\n\
         \n[packing]\nfirst_page_compression_attempts = 4\n\
         subsequent_page_average_compression_attempts = 1.50\n\
         subsequent_page_compression_attempts_range = \"1..2\"\n\
         subsequent_compressed_pages_measured = 9\n\
         average_initial_window_frame_span = [1.00, 2.00]\n\
         average_initial_window_attempts = 3.00\n\
         average_initial_window_final_position = [0.5000]\ninitial_windows_measured = 5\n\
         \n[compression]\ncompressed_payload_bytes = 300\nuncompressed_payload_bytes = 960\n\
         average_frames_per_compressed_page = 20.00\npayload_ratio = 0.3125\n\
         physical_ratio = 8.3333\n\
         \n[page_stats]\ncodec_none_pages = 1\ncodec_zstd_pages = 1\ncodec_lz4_pages = 1\n\
         encoding_row_raw_v1_pages = 1\nencoding_columnar_basic_v1_pages = 1\n\
         encoding_columnar_delta_v1_pages = 1\n"
    );
}

#[test]
fn v1_summaries_have_no_pages() {
    let storage = StorageSummary::V1 { frame_count: 5, physical_bytes: 200, raw_bytes: 80 };
    let ratios = StorageRatios { physical_ratio: "2.5000".to_owned(), ..ratios() };
    let write = V2WriteOptions::from_args(V2WriteArgs { zstd_level: 6 });
    let summary = CommonSummary::of(storage, &ratios, 2, 1024, write, None, None);
    assert_eq!(
        render(|w| print_common_sections(w, &summary)),
        "\n[parameters]\ntarget_format = \"fwob-v1\"\nkey_field_index = 2\nverify = false\n\
         \n[packing]\navailable = false\n\
         \n[compression]\ncompressed_payload_bytes = 80\nuncompressed_payload_bytes = 80\n\
         payload_ratio = 1.0000\nphysical_ratio = 2.5000\n\
         \n[page_stats]\navailable = false\n"
    );
}

#[test]
fn previews_show_both_ends() {
    assert!(preview_indices(0).is_empty());
    assert_eq!(preview_indices(6).len(), 6);
    assert_eq!(
        preview_indices(7),
        [
            PreviewIndex::Frame(0),
            PreviewIndex::Frame(1),
            PreviewIndex::Frame(2),
            PreviewIndex::Ellipsis,
            PreviewIndex::Frame(4),
            PreviewIndex::Frame(5),
            PreviewIndex::Frame(6),
        ]
    );
    assert_eq!(
        format_frame_preview_rows(
            &schema(),
            &vec![frame(0, 1_000, "AB"), PreviewRow::Ellipsis, frame(1_234, -5, "C")]
        ),
        "index  time   name  x       \n    0  1,000  AB    1.500000\n  ...    ...  ...        ...\n\
         1,234     -5  C     1.500000\n"
    );
}

#[test]
fn frames_are_found_in_their_pages() {
    assert_eq!(locate_frame(&[3, 0, 4], 2), Some((0, 2)));
    assert_eq!(locate_frame(&[3, 0, 4], 3), Some((2, 0)));
    assert_eq!(locate_frame(&[3, 0, 4], 7), None);
    assert_eq!(frame_in_page(&[1, 2, 3, 4, 5, 6], 1, 2), [3, 4]);
    assert_eq!(frame_out_of_range(7), "frame index 7 is out of range");
}

#[test]
fn fields_are_shown() {
    assert_eq!(format_hex(&[1, 0xAB]), "0x01ab");
    assert_eq!(format_signed(&(-1_234i16).to_le_bytes()), "-1,234");
    assert_eq!(format_signed(&[1, 2, 3]), "0x010203");
    assert_eq!(format_unsigned(&u32::MAX.to_le_bytes()), "4,294,967,295");
    let text = Field::new("t", FieldType::Utf8String, 3, 1);
    assert_eq!(format_field_value(&text, b"xab\0", ""), "ab");
    let float = Field::new("f", FieldType::FloatingPoint, 4, 0);
    assert_eq!(format_field_value(&float, &1.5f32.to_le_bytes(), "1.500000"), "1.500000");
    assert_eq!(field_type_name(FieldType::StringTableIndex), "string-table-index");
    assert_eq!(field_semantic_name(FieldSemantic::Plain), "none");
    assert_eq!(field_semantic_name(FieldSemantic::FixedPoint(3)), "fixed-3");
    assert_eq!(field_semantic_name(FieldSemantic::Percentage(8)), "percent-8");
}

#[test]
fn schemas_are_printed() {
    assert_eq!(
        render(|w| print_schema(w, &schema())),
        "\n[schema]\nfield_count = 3\n\
         \n[[schema.fields]]\nname = \"time\"\ntype = \"signed-integer\"\nlength = 4\noffset = 0\n\
         semantic = \"unix-seconds\"\n\
         \n[[schema.fields]]\nname = \"name\"\ntype = \"utf8-string\"\nlength = 4\noffset = 4\n\
         \n[[schema.fields]]\nname = \"x\"\ntype = \"floating-point\"\nlength = 8\noffset = 8\n"
    );
}

#[test]
fn v1_files_are_inspected() {
    let facts = V1Facts {
        title: "ticks",
        frame_type: "Tick",
        key_field_index: 0,
        physical_bytes: 4_000,
        frame_count: 10,
        frame_length: 16,
        string_count: 1,
        string_table_length: 6,
        string_table_preserved_length: 1834,
    };
    let text = render(|w| inspect_v1(w, &facts, &schema(), &vec![frame(0, 1, "A")]));
    assert!(text.starts_with(
        "[file]\nformat = \"fwob-v1\"\ntitle = \"ticks\"\nframe_type = \"Tick\"\n\
         key_field_index = 0\n\n[storage]\nphysical_bytes = 4000\nframe_count = 10\n\
         frame_length = 16\ndata_bytes = 160\n\n[strings]\nstring_count = 1\n\
         string_table_length = 6\nstring_table_preserved_length = 1834\n\n[schema]\n"
    ));
    assert!(text.ends_with(
        "\n[frames]\npreview = \"\"\"\nindex  time  name  x       \n    0     1  A     1.500000\n\"\"\"\n"
    ));
    assert!(!render(|w| inspect_v1(w, &facts, &schema(), &Vec::new())).contains("[frames]"));
}

#[test]
fn v2_files_are_inspected() {
    let facts = V2Facts {
        title: "ticks",
        frame_type: "Tick",
        key_field_index: 0,
        frame_count: 60,
        string_count: 2,
        page_size: 1024,
        page_count: 3,
        first_key: "",
        last_key: "",
    };
    let text = render(|w| inspect_v2(w, &facts, &metadata(), &ratios(), &schema(), &Vec::new()));
    assert!(text.starts_with(
        "[file]\nformat = \"fwob-v2\"\ntitle = \"ticks\"\nframe_type = \"Tick\"\n\
         key_field_index = 0\n\n[storage]\nphysical_bytes = 8000\nexpected_physical_bytes = 7168\n\
         physical_size_warning = \"file has 832 trailing_or_missing bytes relative to header\"\n\
         frame_count = 60\nstring_count = 2\n\n[pages]\npage_size = 1024\npage_count = 3\n\
         page_payload_capacity_bytes = 944\nmin_frames_per_page = 10\nmax_frames_per_page = 30\n\
         first_key = 0\nlast_key = 29\n\n[compression]\ncompressed_payload_bytes = 300\n\
         uncompressed_payload_bytes = 960\npadding_bytes = 2532\npayload_ratio = 0.3125\n\
         physical_ratio = 8.3333\npage_payload_utilization = 0.1059\ncodec_none_pages = 1\n"
    ));
    assert!(text.contains("encoding_columnar_delta_v1_pages = 1\n\n[schema]\n"));
}

#[test]
fn verified_files_are_reported_plainly() {
    assert_eq!(
        render(|w| verify_v1(w, 3_000, 2, 50_000)),
        "[verify]\nstatus = \"ok\"\nframe_count = 3000\nstring_count = 2\nfile_length = 50000\n"
    );
    assert_eq!(
        render(|w| verify_v2(w, 7, 3_000)),
        "[verify]\nstatus = \"ok\"\npage_count = 7\nframe_count = 3000\n"
    );
}

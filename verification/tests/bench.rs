use fwob::cli::arguments::{BenchMode, CodecArg, EncodingArg, PagePackingArg};
use fwob::cli::bench::{
    at_least_once, bench_output_name, bench_writer_options, case_done, case_started,
    conversion_bench_cases, conversion_bench_dimensions, conversion_bench_runs, count_choice,
    level_label, matrix_intro, matrix_report, page_size_label, random_page, range_keys, range_page,
    range_started, range_text, rank_results, read_bench_text, read_completed, read_started,
    step_completed, step_started, BenchCase, BenchResult, Choice, MatrixSection,
};
use fwob::options::{Codec, PagePacking};

const CASE: BenchCase = BenchCase {
    page_size: 1_048_576,
    codec: CodecArg::Zstd,
    zstd_level: Some(9),
    encoding: EncodingArg::ColumnarDelta,
    page_packing: PagePackingArg::TightFit,
};

fn result(elapsed: f64, physical_bytes: u64) -> BenchResult {
    BenchResult {
        case: CASE,
        elapsed_bits: elapsed.to_bits(),
        convert_seconds: format!("{elapsed:.3}"),
        random_milliseconds: "0.010".to_owned(),
        scan_milliseconds: "2.000".to_owned(),
        range_milliseconds: "0.030".to_owned(),
        physical_bytes,
        physical_ratio: "0.2500".to_owned(),
        frame_count: 12_345,
        page_count: 7,
        compressed_payload_bytes: 1_000,
        uncompressed_payload_bytes: 4_000,
        payload_ratio: "0.2500".to_owned(),
        average_frames_per_compressed_page: None,
        random_page_iterations: 1_000,
        random_page_frames: 50_000,
        scan_iterations: 3,
        scan_frames: 37_035,
        range_iterations: 1_000,
        range_frames: 60_000,
        first_page_attempts: 4,
        subsequent_average_attempts: "1.50".to_owned(),
        subsequent_min_attempts: 1,
        subsequent_max_attempts: 1_200,
    }
}

#[test]
fn every_combination_is_measured() {
    let cases = conversion_bench_cases();
    assert_eq!(cases.len(), 99);
    assert_eq!(
        cases[0],
        BenchCase {
            page_size: 524_288,
            codec: CodecArg::Zstd,
            zstd_level: Some(3),
            encoding: EncodingArg::RowRaw,
            page_packing: PagePackingArg::EstimateShrink,
        }
    );
    assert_eq!(cases[1].zstd_level, Some(6));
    assert_eq!(cases[24].codec, CodecArg::Lz4);
    assert_eq!(cases[24].zstd_level, None);
    assert_eq!(cases[98].codec, CodecArg::Uncompressed);
    for (index, case) in cases.iter().enumerate() {
        assert!(!cases[..index].contains(case));
        assert!(
            case.codec != CodecArg::Uncompressed || case.page_packing != PagePackingArg::TightFit
        );
    }
    assert_eq!(count_choice(&cases, Choice::ZstdLevel(12)), 18);
    assert_eq!(count_choice(&cases, Choice::Encoding(EncodingArg::Smallest)), 0);
}

#[test]
fn dimensions_are_counted() {
    assert_eq!(
        conversion_bench_dimensions(&conversion_bench_cases()),
        "page_size (3): 512KiB (33 cases), 1MiB (33 cases), 2MiB (33 cases)\n\
         codec (3): zstd (72 cases), lz4 (18 cases), uncompressed (9 cases)\n\
         zstd_level (4; zstd only): 3 (18 cases), 6 (18 cases), 9 (18 cases), 12 (18 cases)\n\
         encoding (3): row-raw (33 cases), columnar-basic (33 cases), columnar-delta (33 cases)\n\
         page_packing (2): estimate-shrink (54 cases), tight-fit (45 cases)\n\
         excluded: codec=uncompressed + page_packing=tight-fit\n\
         conditional: zstd_level applies only to codec=zstd\n"
    );
    assert_eq!(
        conversion_bench_runs(99, 1000, 3),
        "conversion: 99\n\
         random_page: 99 cases x 1,000 iterations = 99,000 reads\n\
         scan: 99 cases x 3 iterations = 297 scans\n\
         range: 99 cases x 1,000 iterations = 99,000 queries\n"
    );
}

#[test]
fn cases_have_labels_names_and_options() {
    assert_eq!(page_size_label(2_097_152), "2MiB");
    assert_eq!(level_label(None), "-");
    assert_eq!(
        bench_output_name("ticks", 42, 7, CASE),
        "ticks.bench.42.7.1MiB.zstd.zstd9.columnar-delta.fwob"
    );
    let lz4 = BenchCase { codec: CodecArg::Lz4, zstd_level: None, ..CASE };
    assert_eq!(
        bench_output_name("ticks", 42, 7, lz4),
        "ticks.bench.42.7.1MiB.lz4.nozstd.columnar-delta.fwob"
    );
    let options = bench_writer_options(CASE);
    assert_eq!(options.page_size, 1_048_576);
    assert_eq!(options.codec, Codec::Zstd);
    assert_eq!(options.zstd_level, 9);
    assert_eq!(options.page_packing, PagePacking::TightFit);
    assert!(!options.compress_partial_page);
    assert_eq!(bench_writer_options(lz4).zstd_level, 6);
    assert_eq!(
        case_started(0, 99, CASE),
        "bench case 1/99: page_size=1MiB codec=zstd zstd_level=9 encoding=columnar-delta \
         page_packing=tight-fit"
    );
}

#[test]
fn pages_are_read_at_random_and_in_the_middle() {
    assert_eq!(random_page(0, 10), 5);
    assert_eq!(random_page(1, 10), (1_103_515_245u64 + 12_345) % 10);
    assert_eq!(
        random_page(u64::MAX, 1_000),
        u64::MAX.wrapping_mul(1_103_515_245).wrapping_add(12_345) % 1_000
    );
    assert_eq!(range_page(7), Some(3));
    assert_eq!(range_page(0), None);
    assert_eq!(at_least_once(0), 1);
    assert_eq!(at_least_once(5), 5);
    assert_eq!(range_keys(None, Some(3)), (i32::MIN, 3));
    assert_eq!(range_text(-1_000, 2_000), "range: [-1,000, 2,000]\n");
}

#[test]
fn measurements_are_logged() {
    assert_eq!(step_started("conversion"), "  test=conversion started");
    assert_eq!(
        step_completed("metadata", "0.125"),
        "  test=metadata completed elapsed_s=0.125"
    );
    assert_eq!(
        read_started(BenchMode::RandomPage, 1000),
        "  test=random-page started iterations=1,000"
    );
    assert_eq!(
        read_completed(BenchMode::Scan, "1.000", "333.333"),
        "  test=scan completed elapsed_s=1.000 average_ms=333.333"
    );
    assert_eq!(
        read_completed(BenchMode::Range, "1.000", "333.333"),
        "  test=range completed elapsed_s=1.000 average_us=333.333"
    );
    assert_eq!(
        range_started(1000, Some((3, "-5", "1.5"))),
        "  test=range started iterations=1,000 page=3 first_key=-5 last_key=1.5"
    );
    assert_eq!(
        range_started(1, None),
        "  test=range started iterations=1 empty_file=true"
    );
    assert_eq!(
        read_bench_text(BenchMode::Scan, 1000, 2000, "1.500", "1.500"),
        "mode: scan\niterations: 1,000\ntotal_frames: 2,000\nelapsed_ms: 1.500\navg_iter_us: 1.500\n"
    );
    assert_eq!(
        case_done(0, 99, &result(1.5, 4096), "10.000", "30.000"),
        "case_done: 1/99 physical_bytes=4,096 physical_ratio=0.2500 elapsed_s=1.500 \
         random_page_avg_us=10.000 scan_avg_ms=2.000 range_avg_us=30.000"
    );
}

#[test]
fn results_are_ranked_by_size_and_time() {
    let results = [
        result(2.0, 100),
        result(0.5, 200),
        result(1.0, 100),
        result(2.0, 100),
    ];
    assert_eq!(rank_results(&results), [2, 0, 3, 1]);
    assert!(rank_results(&[]).is_empty());
}

#[test]
fn results_are_shown_in_the_order_of_their_ranks() {
    let results = [result(2.0, 4096), result(1.0, 2048)];
    let order = rank_results(&results);
    assert_eq!(
        MatrixSection::Summary.table(&results, &order),
        "rank  page  codec  level  encoding        packing    convert_s  random_ms  scan_ms  \
         range_ms  physical_bytes  ratio \n   \
         1  1MiB  zstd       9  columnar-delta  tight-fit      1.000      0.010    2.000     \
         0.030           2,048  0.2500\n   \
         2  1MiB  zstd       9  columnar-delta  tight-fit      2.000      0.010    2.000     \
         0.030           4,096  0.2500\n"
    );
    let packing = MatrixSection::Packing.table(&results, &order);
    assert!(packing.contains("1..1,200"));
    let storage = MatrixSection::Storage.table(&results, &order);
    assert!(storage.lines().nth(1).unwrap().ends_with(" -"));

    let report = matrix_report(false, &results, &order);
    for name in [
        "\n[conversion_matrix_summary]\n",
        "\n[conversion_matrix_storage]\n",
        "\n[conversion_matrix_read_samples]\n",
        "\n[conversion_matrix_packing]\n",
    ] {
        assert!(report.contains(name));
    }
    let intro = matrix_intro(false, "a", "d", &conversion_bench_cases(), "runs\n");
    assert!(intro.starts_with("mode: conversion-matrix\ninput: a\noutput_dir: d\ncases: 99\n\n"));
    assert!(intro.ends_with("\n[conversion_matrix_test_runs]\nruns\n\n"));
}

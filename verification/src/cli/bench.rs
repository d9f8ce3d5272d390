//! Benchmarks: what is measured, in what order results are ranked, and how they are printed.

use crate::cli::arguments::{BenchMode, CodecArg, EncodingArg, PagePackingArg};
use crate::cli::output;
use crate::cli::tokens;
use crate::number;
use crate::options::{PageOptions, DEFAULT_ZSTD_LEVEL};
use crate::text;
use crate::toml::{TomlModel, TomlWriter};
use vstd::prelude::*;
use vstd::string::*;

verus! {

/// How many cases the conversion matrix has.
pub const CASE_COUNT: usize = 99;

/// One way to convert a file.
#[derive(Debug, Clone, Copy, PartialEq, Eq, Structural)]
pub struct BenchCase {
    pub page_size: u32,
    pub codec: CodecArg,
    /// Only zstd has a level.
    pub zstd_level: Option<i32>,
    pub encoding: EncodingArg,
    pub page_packing: PagePackingArg,
}

/// The page sizes that are measured.
pub open spec fn page_size_at(index: int) -> u32 {
    if index == 0 {
        524_288
    } else if index == 1 {
        1_048_576
    } else {
        2_097_152
    }
}

/// The encodings that are measured.
pub open spec fn encoding_at(index: int) -> EncodingArg {
    if index == 0 {
        EncodingArg::RowRaw
    } else if index == 1 {
        EncodingArg::ColumnarBasic
    } else {
        EncodingArg::ColumnarDelta
    }
}

/// The packings that are measured.
pub open spec fn packing_at(index: int) -> PagePackingArg {
    if index == 0 {
        PagePackingArg::EstimateShrink
    } else {
        PagePackingArg::TightFit
    }
}

/// The levels of zstd that are measured.
pub open spec fn level_at(index: int) -> i32 {
    if index == 0 {
        3
    } else if index == 1 {
        6
    } else if index == 2 {
        9
    } else {
        12
    }
}

/// The cases in their order. For every page size, zstd comes first with every encoding, packing and
/// level; then lz4 with every encoding and packing; then every encoding uncompressed, where packing
/// tightly would change nothing.
pub open spec fn case_at(index: int) -> BenchCase {
    let page_size = page_size_at(index / 33);
    let rest = index % 33;
    if rest < 24 {
        BenchCase {
            page_size,
            codec: CodecArg::Zstd,
            zstd_level: Some(level_at(rest % 4)),
            encoding: encoding_at(rest / 8),
            page_packing: packing_at(rest % 8 / 4),
        }
    } else if rest < 30 {
        BenchCase {
            page_size,
            codec: CodecArg::Lz4,
            zstd_level: None,
            encoding: encoding_at((rest - 24) / 2),
            page_packing: packing_at((rest - 24) % 2),
        }
    } else {
        BenchCase {
            page_size,
            codec: CodecArg::Uncompressed,
            zstd_level: None,
            encoding: encoding_at(rest - 30),
            page_packing: PagePackingArg::EstimateShrink,
        }
    }
}

/// The cases of the conversion matrix.
pub open spec fn bench_cases() -> Seq<BenchCase> {
    Seq::new(CASE_COUNT as nat, |i: int| case_at(i))
}

fn encoding_of(index: usize) -> (result: EncodingArg)
    ensures
        result == encoding_at(index as int),
{
    if index == 0 {
        EncodingArg::RowRaw
    } else if index == 1 {
        EncodingArg::ColumnarBasic
    } else {
        EncodingArg::ColumnarDelta
    }
}

fn packing_of(index: usize) -> (result: PagePackingArg)
    ensures
        result == packing_at(index as int),
{
    if index == 0 {
        PagePackingArg::EstimateShrink
    } else {
        PagePackingArg::TightFit
    }
}

/// The cases of the conversion matrix.
pub fn conversion_bench_cases() -> (result: Vec<BenchCase>)
    ensures
        result@ == bench_cases(),
{
    let mut cases: Vec<BenchCase> = Vec::new();
    let mut i: usize = 0;
    while i < CASE_COUNT
        invariant
            i <= CASE_COUNT,
            cases@ == bench_cases().take(i as int),
        decreases CASE_COUNT - i,
    {
        let page: usize = i / 33;
        let rest: usize = i % 33;
        let page_size: u32 = if page == 0 {
            524_288
        } else if page == 1 {
            1_048_576
        } else {
            2_097_152
        };
        let case: BenchCase = if rest < 24 {
            let level: usize = rest % 4;
            BenchCase {
                page_size,
                codec: CodecArg::Zstd,
                zstd_level: Some(
                    if level == 0 {
                        3
                    } else if level == 1 {
                        6
                    } else if level == 2 {
                        9
                    } else {
                        12
                    },
                ),
                encoding: encoding_of(rest / 8),
                page_packing: packing_of(rest % 8 / 4),
            }
        } else if rest < 30 {
            BenchCase {
                page_size,
                codec: CodecArg::Lz4,
                zstd_level: None,
                encoding: encoding_of((rest - 24) / 2),
                page_packing: packing_of((rest - 24) % 2),
            }
        } else {
            BenchCase {
                page_size,
                codec: CodecArg::Uncompressed,
                zstd_level: None,
                encoding: encoding_of(rest - 30),
                page_packing: PagePackingArg::EstimateShrink,
            }
        };
        cases.push(case);
        i = i + 1;
        assert(cases@ == bench_cases().take(i as int));
    }
    assert(bench_cases().take(CASE_COUNT as int) == bench_cases());
    cases
}

/// Whether a case is one that is measured: one of the page sizes, a fixed codec and a fixed
/// encoding, a level for zstd and only for zstd, and no tight packing without compression.
pub open spec fn is_measured(case: BenchCase) -> bool {
    &&& exists|i: int| 0 <= i < 3 && case.page_size == #[trigger] page_size_at(i)
    &&& case.codec != CodecArg::Smallest
    &&& case.encoding != EncodingArg::Smallest
    &&& match case.zstd_level {
        Some(level) => case.codec == CodecArg::Zstd && exists|i: int|
            0 <= i < 4 && level == #[trigger] level_at(i),
        None => case.codec != CodecArg::Zstd,
    }
    &&& !(case.codec == CodecArg::Uncompressed && case.page_packing == PagePackingArg::TightFit)
}

/// The place of a case in the matrix.
pub open spec fn place_of(case: BenchCase) -> int {
    let page = if case.page_size == 524_288 {
        0int
    } else if case.page_size == 1_048_576 {
        1
    } else {
        2
    };
    let encoding = match case.encoding {
        EncodingArg::RowRaw => 0int,
        EncodingArg::ColumnarBasic => 1,
        _ => 2,
    };
    let packing = match case.page_packing {
        PagePackingArg::EstimateShrink => 0int,
        PagePackingArg::TightFit => 1,
    };
    let level = match case.zstd_level {
        Some(level) => if level == 3 {
            0int
        } else if level == 6 {
            1
        } else if level == 9 {
            2
        } else {
            3
        },
        None => 0,
    };
    33 * page + match case.codec {
        CodecArg::Zstd => 8 * encoding + 4 * packing + level,
        CodecArg::Lz4 => 24 + 2 * encoding + packing,
        _ => 30 + encoding,
    }
}

/// Every case that can be measured is in the matrix, and once only.
pub proof fn every_case_is_measured_once(case: BenchCase)
    requires
        is_measured(case),
    ensures
        0 <= place_of(case) < CASE_COUNT,
        bench_cases()[place_of(case)] == case,
        forall|i: int|
            0 <= i < CASE_COUNT && #[trigger] bench_cases()[i] == case ==> i == place_of(case),
{
    let page = choose|i: int| 0 <= i < 3 && case.page_size == #[trigger] page_size_at(i);
    assert(page == 0 || page == 1 || page == 2);
    if let Some(level) = case.zstd_level {
        let place = choose|i: int| 0 <= i < 4 && level == #[trigger] level_at(i);
        assert(place == 0 || place == 1 || place == 2 || place == 3);
    }
    assert forall|i: int| 0 <= i < CASE_COUNT && #[trigger] bench_cases()[i] == case implies i
        == place_of(case) by {
        places_read_back(i);
    }
}

/// Nothing is in the matrix that is not to be measured.
pub proof fn only_measured_cases(index: int)
    requires
        0 <= index < CASE_COUNT,
    ensures
        is_measured(bench_cases()[index]),
{
    let case = case_at(index);
    assert(case.page_size == page_size_at(index / 33));
    if index % 33 < 24 {
        assert(case.zstd_level == Some(level_at(index % 33 % 4)));
    }
}

proof fn places_read_back(index: int)
    requires
        0 <= index < CASE_COUNT,
    ensures
        place_of(case_at(index)) == index,
{
    let page = index / 33;
    let rest = index % 33;
    assert(index == 33 * page + rest);
    assert(page == 0 || page == 1 || page == 2);
    if rest < 24 {
        assert(rest == 8 * (rest / 8) + rest % 8);
        assert(rest % 8 == 4 * (rest % 8 / 4) + rest % 4);
    } else if rest < 30 {
        assert(rest - 24 == 2 * ((rest - 24) / 2) + (rest - 24) % 2);
    }
}

/// The word for a page size.
pub open spec fn page_size_word(page_size: u32) -> Seq<char> {
    if page_size == 524_288 {
        "512KiB"@
    } else if page_size == 1_048_576 {
        "1MiB"@
    } else {
        "2MiB"@
    }
}

/// The word for a page size.
pub fn page_size_label(page_size: u32) -> (result: &'static str)
    ensures
        result@ == page_size_word(page_size),
{
    if page_size == 524_288 {
        "512KiB"
    } else if page_size == 1_048_576 {
        "1MiB"
    } else {
        "2MiB"
    }
}

/// The level of a case, or a dash where it has none.
pub open spec fn level_text(level: Option<i32>) -> Seq<char> {
    match level {
        Some(level) => number::integer_text(level as int),
        None => "-"@,
    }
}

/// The level of a case, or a dash where it has none.
pub fn level_label(level: Option<i32>) -> (result: String)
    ensures
        result@ == level_text(level),
{
    match level {
        Some(level) => number::integer_string(level as i128),
        None => "-".to_owned(),
    }
}

/// The page options that a case is written with.
pub fn bench_writer_options(case: BenchCase) -> (result: PageOptions)
    ensures
        result == (PageOptions {
            page_size: case.page_size,
            codec: case.codec.leading(),
            codec_selection: case.codec.choice(),
            zstd_level: match case.zstd_level {
                Some(level) => level,
                None => DEFAULT_ZSTD_LEVEL,
            },
            encoding: case.encoding.leading(),
            encoding_selection: case.encoding.choice(),
            compress_partial_page: false,
            page_packing: case.page_packing.packing(),
        }),
{
    PageOptions {
        page_size: case.page_size,
        codec: case.codec.codec(),
        codec_selection: case.codec.selection(),
        zstd_level: match case.zstd_level {
            Some(level) => level,
            None => DEFAULT_ZSTD_LEVEL,
        },
        encoding: case.encoding.encoding(),
        encoding_selection: case.encoding.selection(),
        compress_partial_page: false,
        page_packing: case.page_packing.page_packing(),
    }
}

/// What a case is told by in a file name.
pub open spec fn level_name(level: Option<i32>) -> Seq<char> {
    match level {
        Some(level) => "zstd"@ + number::integer_text(level as int),
        None => "nozstd"@,
    }
}

/// The name of the file that a case is written to.
pub fn bench_output_name(stem: &str, process_id: u32, case_index: usize, case: BenchCase) -> (result:
    String)
    ensures
        result@ == stem@ + ".bench."@ + number::decimal(process_id as nat) + "."@ + number::decimal(
            case_index as nat,
        ) + "."@ + page_size_word(case.page_size) + "."@ + case.codec.word() + "."@ + level_name(
            case.zstd_level,
        ) + "."@ + case.encoding.word() + ".fwob"@,
{
    let mut name: String = stem.to_owned();
    name.append(".bench.");
    number::push_decimal(&mut name, process_id as u128);
    name.append(".");
    number::push_decimal(&mut name, case_index as u128);
    name.append(".");
    name.append(page_size_label(case.page_size));
    name.append(".");
    name.append(case.codec.as_str());
    name.append(".");
    let level: String = match case.zstd_level {
        Some(level) => {
            let mut words: String = "zstd".to_owned();
            number::push_integer(&mut words, level as i128);
            words
        },
        None => "nozstd".to_owned(),
    };
    name.append(level.as_str());
    name.append(".");
    name.append(case.encoding.as_str());
    name.append(".fwob");
    name
}

/// The page that is read next in an order that looks random and is always the same.
pub fn random_page(iteration: u64, page_count: u64) -> (result: u64)
    requires
        page_count > 0,
    ensures
        result < page_count,
        result == ((iteration * 1_103_515_245 + 12_345) % 0x1_0000_0000_0000_0000) % (
        page_count as int),
{
    let product: u64 = iteration.wrapping_mul(1_103_515_245);
    let sum: u64 = product.wrapping_add(12_345);
    proof {
        let whole = iteration * 1_103_515_245;
        let range = 0x1_0000_0000_0000_0000int;
        assert(product == whole % range);
        assert(sum == (product + 12_345) % range);
        vstd::arithmetic::div_mod::lemma_add_mod_noop(whole, 12_345, range);
        vstd::arithmetic::div_mod::lemma_add_mod_noop(product as int, 12_345, range);
        vstd::arithmetic::div_mod::lemma_mod_twice(whole, range);
    }
    sum % page_count
}

/// One choice that cases differ in.
#[derive(Debug, Clone, Copy, PartialEq, Eq, Structural)]
pub enum Choice {
    PageSize(u32),
    Codec(CodecArg),
    ZstdLevel(i32),
    Encoding(EncodingArg),
    PagePacking(PagePackingArg),
}

impl Choice {
    /// Whether a case makes this choice.
    pub open spec fn made_by(self, case: BenchCase) -> bool {
        match self {
            Choice::PageSize(page_size) => case.page_size == page_size,
            Choice::Codec(codec) => case.codec == codec,
            Choice::ZstdLevel(level) => case.zstd_level == Some(level),
            Choice::Encoding(encoding) => case.encoding == encoding,
            Choice::PagePacking(packing) => case.page_packing == packing,
        }
    }

    /// The word for this choice.
    pub open spec fn word(self) -> Seq<char> {
        match self {
            Choice::PageSize(page_size) => page_size_word(page_size),
            Choice::Codec(codec) => codec.word(),
            Choice::ZstdLevel(level) => number::integer_text(level as int),
            Choice::Encoding(encoding) => encoding.word(),
            Choice::PagePacking(packing) => packing.word(),
        }
    }

    fn is_made_by(self, case: BenchCase) -> (result: bool)
        ensures
            result == self.made_by(case),
    {
        match self {
            Choice::PageSize(page_size) => case.page_size == page_size,
            Choice::Codec(codec) => case.codec == codec,
            Choice::ZstdLevel(level) => match case.zstd_level {
                Some(other) => other == level,
                None => false,
            },
            Choice::Encoding(encoding) => case.encoding == encoding,
            Choice::PagePacking(packing) => case.page_packing == packing,
        }
    }

    fn push_word(self, out: &mut String)
        ensures
            final(out)@ == old(out)@ + self.word(),
    {
        match self {
            Choice::PageSize(page_size) => out.append(page_size_label(page_size)),
            Choice::Codec(codec) => out.append(codec.as_str()),
            Choice::ZstdLevel(level) => number::push_integer(out, level as i128),
            Choice::Encoding(encoding) => out.append(encoding.as_str()),
            Choice::PagePacking(packing) => out.append(packing.as_str()),
        }
    }
}

/// How many cases make a choice.
pub open spec fn choice_count(cases: Seq<BenchCase>, choice: Choice) -> nat
    decreases cases.len(),
{
    if cases.len() == 0 {
        0
    } else {
        choice_count(cases.drop_last(), choice) + if choice.made_by(cases.last()) {
            1nat
        } else {
            0nat
        }
    }
}

/// How many cases make a choice.
pub fn count_choice(cases: &[BenchCase], choice: Choice) -> (result: usize)
    ensures
        result == choice_count(cases@, choice),
        result <= cases@.len(),
{
    let mut count: usize = 0;
    let mut i: usize = 0;
    assert(cases@.take(0) == Seq::<BenchCase>::empty());
    while i < cases.len()
        invariant
            i <= cases@.len(),
            count <= i,
            count == choice_count(cases@.take(i as int), choice),
        decreases cases@.len() - i,
    {
        assert(cases@.take(i as int + 1).drop_last() == cases@.take(i as int));
        if choice.is_made_by(cases[i]) {
            count = count + 1;
        }
        i = i + 1;
    }
    assert(cases@.take(i as int) == cases@);
    count
}

/// What is said of one choice.
pub open spec fn choice_text(cases: Seq<BenchCase>, choice: Choice) -> Seq<char> {
    choice.word() + " ("@ + number::decimal(choice_count(cases, choice)) + " cases)"@
}

/// A line on the choices of one dimension.
pub open spec fn dimension_line(
    name: Seq<char>,
    note: Seq<char>,
    cases: Seq<BenchCase>,
    choices: Seq<Choice>,
) -> Seq<char> {
    name + " ("@ + number::decimal(choices.len()) + note + "): "@ + text::joined(
        choices.map_values(|choice: Choice| choice_text(cases, choice)),
        ", "@,
    ) + "\n"@
}

fn push_dimension(
    out: &mut String,
    name: &str,
    note: &str,
    cases: &[BenchCase],
    choices: &[Choice],
)
    ensures
        final(out)@ == old(out)@ + dimension_line(name@, note@, cases@, choices@),
{
    let ghost before = out@;
    let mut words: Vec<String> = Vec::new();
    let mut i: usize = 0;
    while i < choices.len()
        invariant
            i <= choices@.len(),
            words@.len() == i,
            forall|j: int|
                0 <= j < i ==> (#[trigger] words@[j])@ == choice_text(cases@, choices@[j]),
        decreases choices@.len() - i,
    {
        let mut word: String = String::new();
        choices[i].push_word(&mut word);
        assert(word@ == choices@[i as int].word());
        word.append(" (");
        number::push_decimal(&mut word, count_choice(cases, choices[i]) as u128);
        word.append(" cases)");
        words.push(word);
        i = i + 1;
    }
    assert(text::views(words@) == choices@.map_values(
        |choice: Choice| choice_text(cases@, choice),
    ));
    let list: String = text::join(words.as_slice(), ", ");
    out.append(name);
    out.append(" (");
    number::push_decimal(out, choices.len() as u128);
    out.append(note);
    out.append("): ");
    out.append(list.as_str());
    out.append("\n");
    assert(out@ == before + dimension_line(name@, note@, cases@, choices@));
}

/// The page sizes to choose from.
pub open spec fn page_choices() -> Seq<Choice> {
    seq![
        Choice::PageSize(524_288),
        Choice::PageSize(1_048_576),
        Choice::PageSize(2_097_152),
    ]
}

/// The codecs to choose from.
pub open spec fn codec_choices() -> Seq<Choice> {
    seq![
        Choice::Codec(CodecArg::Zstd),
        Choice::Codec(CodecArg::Lz4),
        Choice::Codec(CodecArg::Uncompressed),
    ]
}

/// The levels of zstd to choose from.
pub open spec fn level_choices() -> Seq<Choice> {
    seq![
        Choice::ZstdLevel(3),
        Choice::ZstdLevel(6),
        Choice::ZstdLevel(9),
        Choice::ZstdLevel(12),
    ]
}

/// The encodings to choose from.
pub open spec fn encoding_choices() -> Seq<Choice> {
    seq![
        Choice::Encoding(EncodingArg::RowRaw),
        Choice::Encoding(EncodingArg::ColumnarBasic),
        Choice::Encoding(EncodingArg::ColumnarDelta),
    ]
}

/// The packings to choose from.
pub open spec fn packing_choices() -> Seq<Choice> {
    seq![
        Choice::PagePacking(PagePackingArg::EstimateShrink),
        Choice::PagePacking(PagePackingArg::TightFit),
    ]
}

/// What is printed of the dimensions of the matrix.
pub open spec fn dimensions_text(cases: Seq<BenchCase>) -> Seq<char> {
    dimension_line("page_size"@, ""@, cases, page_choices()) + dimension_line(
        "codec"@,
        ""@,
        cases,
        codec_choices(),
    ) + dimension_line("zstd_level"@, "; zstd only"@, cases, level_choices()) + dimension_line(
        "encoding"@,
        ""@,
        cases,
        encoding_choices(),
    ) + dimension_line("page_packing"@, ""@, cases, packing_choices())
        + "excluded: codec=uncompressed + page_packing=tight-fit\n"@
        + "conditional: zstd_level applies only to codec=zstd\n"@
}

/// What is printed of the dimensions of the matrix.
pub fn conversion_bench_dimensions(cases: &[BenchCase]) -> (result: String)
    ensures
        result@ == dimensions_text(cases@),
{
    let mut out: String = String::new();
    let pages: Vec<Choice> = vec![
        Choice::PageSize(524_288),
        Choice::PageSize(1_048_576),
        Choice::PageSize(2_097_152),
    ];
    assert(pages@ == page_choices());
    push_dimension(&mut out, "page_size", "", cases, pages.as_slice());
    assert(out@ == dimension_line("page_size"@, ""@, cases@, page_choices()));
    let codecs: Vec<Choice> = vec![
        Choice::Codec(CodecArg::Zstd),
        Choice::Codec(CodecArg::Lz4),
        Choice::Codec(CodecArg::Uncompressed),
    ];
    assert(codecs@ == codec_choices());
    push_dimension(&mut out, "codec", "", cases, codecs.as_slice());
    let levels: Vec<Choice> = vec![
        Choice::ZstdLevel(3),
        Choice::ZstdLevel(6),
        Choice::ZstdLevel(9),
        Choice::ZstdLevel(12),
    ];
    assert(levels@ == level_choices());
    push_dimension(&mut out, "zstd_level", "; zstd only", cases, levels.as_slice());
    let encodings: Vec<Choice> = vec![
        Choice::Encoding(EncodingArg::RowRaw),
        Choice::Encoding(EncodingArg::ColumnarBasic),
        Choice::Encoding(EncodingArg::ColumnarDelta),
    ];
    assert(encodings@ == encoding_choices());
    push_dimension(&mut out, "encoding", "", cases, encodings.as_slice());
    let packings: Vec<Choice> = vec![
        Choice::PagePacking(PagePackingArg::EstimateShrink),
        Choice::PagePacking(PagePackingArg::TightFit),
    ];
    assert(packings@ == packing_choices());
    push_dimension(&mut out, "page_packing", "", cases, packings.as_slice());
    out.append("excluded: codec=uncompressed + page_packing=tight-fit\n");
    out.append("conditional: zstd_level applies only to codec=zstd\n");
    out
}

/// A line on how often something is measured.
pub open spec fn runs_line(name: Seq<char>, cases: int, iterations: int, unit: Seq<char>) -> Seq<
    char,
> {
    name + ": "@ + number::grouped_integer(cases) + " cases x "@ + number::grouped_integer(
        iterations,
    ) + " iterations = "@ + number::grouped_integer(cases * iterations) + " "@ + unit + "\n"@
}

fn push_runs(out: &mut String, name: &str, cases: usize, iterations: u64, unit: &str)
    ensures
        final(out)@ == old(out)@ + runs_line(name@, cases as int, iterations as int, unit@),
{
    let ghost before = out@;
    proof {
        assert(cases * iterations <= u128::MAX) by (nonlinear_arith)
            requires
                cases <= u64::MAX,
                iterations <= u64::MAX,
        ;
    }
    let count: String = number::comma_usize(cases);
    let times: String = number::comma_u64(iterations);
    let product: String = number::comma_u128(cases as u128 * iterations as u128);
    out.append(name);
    out.append(": ");
    out.append(count.as_str());
    out.append(" cases x ");
    out.append(times.as_str());
    out.append(" iterations = ");
    out.append(product.as_str());
    out.append(" ");
    out.append(unit);
    out.append("\n");
    assert(out@ == before + runs_line(name@, cases as int, iterations as int, unit@));
}

/// What is printed of how often everything is measured.
pub fn conversion_bench_runs(cases: usize, iterations: u64, scan_iterations: u64) -> (result: String)
    ensures
        result@ == "conversion: "@ + number::grouped_integer(cases as int) + "\n"@ + runs_line(
            "random_page"@,
            cases as int,
            iterations as int,
            "reads"@,
        ) + runs_line("scan"@, cases as int, scan_iterations as int, "scans"@) + runs_line(
            "range"@,
            cases as int,
            iterations as int,
            "queries"@,
        ),
{
    let mut out: String = "conversion: ".to_owned();
    let count: String = number::comma_usize(cases);
    out.append(count.as_str());
    out.append("\n");
    push_runs(&mut out, "random_page", cases, iterations, "reads");
    push_runs(&mut out, "scan", cases, scan_iterations, "scans");
    push_runs(&mut out, "range", cases, iterations, "queries");
    out
}

/// What a case says of itself when it starts.
pub fn case_started(case_index: usize, cases: usize, case: BenchCase) -> (result: String)
    requires
        case_index < usize::MAX,
    ensures
        result@ == "bench case "@ + number::grouped_integer(case_index + 1) + "/"@
            + number::grouped_integer(cases as int) + ": page_size="@ + page_size_word(
            case.page_size,
        ) + " codec="@ + case.codec.word() + " zstd_level="@ + level_text(case.zstd_level)
            + " encoding="@ + case.encoding.word() + " page_packing="@ + case.page_packing.word(),
{
    let mut out: String = "bench case ".to_owned();
    let index: String = number::comma_usize(case_index + 1);
    out.append(index.as_str());
    out.append("/");
    let count: String = number::comma_usize(cases);
    out.append(count.as_str());
    out.append(": page_size=");
    out.append(page_size_label(case.page_size));
    out.append(" codec=");
    out.append(case.codec.as_str());
    out.append(" zstd_level=");
    let level: String = level_label(case.zstd_level);
    out.append(level.as_str());
    out.append(" encoding=");
    out.append(case.encoding.as_str());
    out.append(" page_packing=");
    out.append(case.page_packing.as_str());
    out
}

/// What was measured of a case. Numbers with a fraction are given by their texts.
pub struct BenchResult {
    pub case: BenchCase,
    /// The bits of the seconds that the conversion took, by which results are ranked.
    pub elapsed_bits: u64,
    pub convert_seconds: String,
    pub random_milliseconds: String,
    pub scan_milliseconds: String,
    pub range_milliseconds: String,
    pub physical_bytes: u64,
    pub physical_ratio: String,
    pub frame_count: u64,
    pub page_count: u64,
    pub compressed_payload_bytes: u64,
    pub uncompressed_payload_bytes: u64,
    pub payload_ratio: String,
    pub average_frames_per_compressed_page: Option<String>,
    pub random_page_iterations: u64,
    pub random_page_frames: u64,
    pub scan_iterations: u64,
    pub scan_frames: u64,
    pub range_iterations: u64,
    pub range_frames: u64,
    pub first_page_attempts: u64,
    pub subsequent_average_attempts: String,
    pub subsequent_min_attempts: u64,
    pub subsequent_max_attempts: u64,
}

/// Whether one result ranks before another: by the size of its file, then by the time it took, then
/// as the cases come.
pub open spec fn ranks_before(results: Seq<BenchResult>, first: int, second: int) -> bool {
    let left = results[first];
    let right = results[second];
    ||| left.physical_bytes < right.physical_bytes
    ||| left.physical_bytes == right.physical_bytes && left.elapsed_bits < right.elapsed_bits
    ||| left.physical_bytes == right.physical_bytes && left.elapsed_bits == right.elapsed_bits
        && first < second
}

/// Whether results stand in the order of their ranks.
pub open spec fn in_rank_order(results: Seq<BenchResult>, order: Seq<usize>) -> bool {
    forall|p: int, q: int|
        0 <= p < q < order.len() ==> ranks_before(
            results,
            #[trigger] order[p] as int,
            #[trigger] order[q] as int,
        )
}

/// The results in the order of their ranks.
pub fn rank_results(results: &[BenchResult]) -> (result: Vec<usize>)
    ensures
        in_rank_order(results@, result@),
        result@.len() == results@.len(),
        forall|i: usize| #[trigger] result@.contains(i) <==> i < results@.len(),
{
    let mut order: Vec<usize> = Vec::new();
    let mut i: usize = 0;
    while i < results.len()
        invariant
            i <= results@.len(),
            in_rank_order(results@, order@),
            order@.len() == i,
            forall|j: usize| #[trigger] order@.contains(j) <==> j < i,
        decreases results@.len() - i,
    {
        let ghost before = order@;
        let mut place: usize = 0;
        proof {
            assert forall|p: int| 0 <= p < before.len() implies #[trigger] before[p] < i by {
                assert(before.contains(before[p]));
            }
        }
        while place < order.len() && !(results[i].physical_bytes
            < results[order[place]].physical_bytes || (results[i].physical_bytes
            == results[order[place]].physical_bytes && results[i].elapsed_bits
            < results[order[place]].elapsed_bits))
            invariant
                place <= order@.len(),
                order@ == before,
                i < results@.len(),
                forall|p: int| 0 <= p < before.len() ==> #[trigger] before[p] < i,
                forall|p: int|
                    0 <= p < place ==> ranks_before(
                        results@,
                        #[trigger] before[p] as int,
                        i as int,
                    ),
            decreases order@.len() - place,
        {
            place = place + 1;
        }
        order.insert(place, i);
        proof {
            let after = order@;
            assert(after == before.insert(place as int, i));
            assert forall|p: int, q: int| 0 <= p < q < after.len() implies ranks_before(
                results@,
                #[trigger] after[p] as int,
                #[trigger] after[q] as int,
            ) by {
                if q < place {
                    assert(after[p] == before[p] && after[q] == before[q]);
                } else if p > place {
                    assert(after[p] == before[p - 1] && after[q] == before[q - 1]);
                } else if p < place && q > place {
                    assert(after[p] == before[p] && after[q] == before[q - 1]);
                } else if q == place {
                    assert(after[p] == before[p]);
                } else {
                    assert(after[q] == before[q - 1]);
                    let next = before[place as int] as int;
                    let other = before[q - 1] as int;
                    assert(q - 1 == place || ranks_before(results@, next, other));
                }
            }
            assert forall|j: usize| after.contains(j) <==> j < i + 1 by {
                if before.contains(j) {
                    let p = choose|p: int| 0 <= p < before.len() && before[p] == j;
                    if p < place {
                        assert(after[p] == j);
                    } else {
                        assert(after[p + 1] == j);
                    }
                }
                if j == i {
                    assert(after[place as int] == j);
                }
                if after.contains(j) && j != i {
                    let p = choose|p: int| 0 <= p < after.len() && after[p] == j;
                    if p < place {
                        assert(before[p] == j);
                    } else {
                        assert(before[p - 1] == j);
                    }
                    assert(before.contains(j));
                }
            }
        }
        i = i + 1;
    }
    order
}

/// The tables that results are printed in.
#[derive(Debug, Clone, Copy, PartialEq, Eq, Structural)]
pub enum MatrixSection {
    Summary,
    Storage,
    ReadSamples,
    Packing,
}

impl MatrixSection {
    /// The name of the table.
    pub open spec fn title(self) -> Seq<char> {
        match self {
            MatrixSection::Summary => "conversion_matrix_summary"@,
            MatrixSection::Storage => "conversion_matrix_storage"@,
            MatrixSection::ReadSamples => "conversion_matrix_read_samples"@,
            MatrixSection::Packing => "conversion_matrix_packing"@,
        }
    }

    /// The headers of the columns that this table has of its own.
    pub open spec fn own_headers(self) -> Seq<Seq<char>> {
        match self {
            MatrixSection::Summary => seq![
                "convert_s"@,
                "random_ms"@,
                "scan_ms"@,
                "range_ms"@,
                "physical_bytes"@,
                "ratio"@,
            ],
            MatrixSection::Storage => seq![
                "frames"@,
                "pages"@,
                "compressed_bytes"@,
                "uncompressed_bytes"@,
                "payload_ratio"@,
                "avg_frames_compressed_page"@,
            ],
            MatrixSection::ReadSamples => seq![
                "random_iterations"@,
                "random_frames"@,
                "scan_iterations"@,
                "scan_frames"@,
                "range_iterations"@,
                "range_frames"@,
            ],
            MatrixSection::Packing => seq![
                "first_attempts"@,
                "subseq_avg_attempts"@,
                "subseq_attempt_range"@,
            ],
        }
    }

    /// The cells that this table has of its own of a result.
    pub open spec fn own_cells(self, result: BenchResult) -> Seq<Seq<char>> {
        match self {
            MatrixSection::Summary => seq![
                result.convert_seconds@,
                result.random_milliseconds@,
                result.scan_milliseconds@,
                result.range_milliseconds@,
                number::grouped_integer(result.physical_bytes as int),
                result.physical_ratio@,
            ],
            MatrixSection::Storage => seq![
                number::grouped_integer(result.frame_count as int),
                number::grouped_integer(result.page_count as int),
                number::grouped_integer(result.compressed_payload_bytes as int),
                number::grouped_integer(result.uncompressed_payload_bytes as int),
                result.payload_ratio@,
                match result.average_frames_per_compressed_page {
                    Some(average) => average@,
                    None => "-"@,
                },
            ],
            MatrixSection::ReadSamples => seq![
                number::grouped_integer(result.random_page_iterations as int),
                number::grouped_integer(result.random_page_frames as int),
                number::grouped_integer(result.scan_iterations as int),
                number::grouped_integer(result.scan_frames as int),
                number::grouped_integer(result.range_iterations as int),
                number::grouped_integer(result.range_frames as int),
            ],
            MatrixSection::Packing => seq![
                number::grouped_integer(result.first_page_attempts as int),
                result.subsequent_average_attempts@,
                number::grouped_integer(result.subsequent_min_attempts as int) + ".."@
                    + number::grouped_integer(result.subsequent_max_attempts as int),
            ],
        }
    }

    /// The headers of all columns.
    pub open spec fn headers(self) -> Seq<Seq<char>> {
        seq!["rank"@, "page"@, "codec"@, "level"@, "encoding"@, "packing"@] + self.own_headers()
    }

    /// Which columns are aligned to their right: the rank, the level, and what was measured.
    pub open spec fn sides(self) -> Seq<bool> {
        Seq::new(self.headers().len(), |i: int| i == 0 || i == 3 || i >= 6)
    }

    /// The cells of a result and its rank.
    pub open spec fn cells(self, rank: int, result: BenchResult) -> Seq<Seq<char>> {
        seq![
            number::grouped_integer(rank + 1),
            page_size_word(result.case.page_size),
            result.case.codec.word(),
            level_text(result.case.zstd_level),
            result.case.encoding.word(),
            result.case.page_packing.word(),
        ] + self.own_cells(result)
    }

    /// The rows of the table, in the order of the ranks.
    pub open spec fn rows(self, results: Seq<BenchResult>, order: Seq<usize>) -> Seq<
        Seq<Seq<char>>,
    > {
        Seq::new(order.len(), |rank: int| self.cells(rank, results[order[rank] as int]))
    }

    /// The name of the table.
    pub fn name(self) -> (result: &'static str)
        ensures
            result@ == self.title(),
    {
        match self {
            MatrixSection::Summary => "conversion_matrix_summary",
            MatrixSection::Storage => "conversion_matrix_storage",
            MatrixSection::ReadSamples => "conversion_matrix_read_samples",
            MatrixSection::Packing => "conversion_matrix_packing",
        }
    }

    fn header_cells(self) -> (result: Vec<String>)
        ensures
            text::views(result@) == self.headers(),
    {
        let mut cells: Vec<String> = Vec::new();
        cells.push("rank".to_owned());
        cells.push("page".to_owned());
        cells.push("codec".to_owned());
        cells.push("level".to_owned());
        cells.push("encoding".to_owned());
        cells.push("packing".to_owned());
        match self {
            MatrixSection::Summary => {
                cells.push("convert_s".to_owned());
                cells.push("random_ms".to_owned());
                cells.push("scan_ms".to_owned());
                cells.push("range_ms".to_owned());
                cells.push("physical_bytes".to_owned());
                cells.push("ratio".to_owned());
            },
            MatrixSection::Storage => {
                cells.push("frames".to_owned());
                cells.push("pages".to_owned());
                cells.push("compressed_bytes".to_owned());
                cells.push("uncompressed_bytes".to_owned());
                cells.push("payload_ratio".to_owned());
                cells.push("avg_frames_compressed_page".to_owned());
            },
            MatrixSection::ReadSamples => {
                cells.push("random_iterations".to_owned());
                cells.push("random_frames".to_owned());
                cells.push("scan_iterations".to_owned());
                cells.push("scan_frames".to_owned());
                cells.push("range_iterations".to_owned());
                cells.push("range_frames".to_owned());
            },
            MatrixSection::Packing => {
                cells.push("first_attempts".to_owned());
                cells.push("subseq_avg_attempts".to_owned());
                cells.push("subseq_attempt_range".to_owned());
            },
        }
        assert(text::views(cells@) == self.headers());
        cells
    }

    fn result_cells(self, rank: usize, result: &BenchResult) -> (cells: Vec<String>)
        requires
            rank < usize::MAX,
        ensures
            text::views(cells@) == self.cells(rank as int, *result),
    {
        let mut cells: Vec<String> = Vec::new();
        cells.push(number::comma_usize(rank + 1));
        cells.push(page_size_label(result.case.page_size).to_owned());
        cells.push(result.case.codec.as_str().to_owned());
        cells.push(level_label(result.case.zstd_level));
        cells.push(result.case.encoding.as_str().to_owned());
        cells.push(result.case.page_packing.as_str().to_owned());
        match self {
            MatrixSection::Summary => {
                cells.push(result.convert_seconds.clone());
                cells.push(result.random_milliseconds.clone());
                cells.push(result.scan_milliseconds.clone());
                cells.push(result.range_milliseconds.clone());
                cells.push(number::comma_u64(result.physical_bytes));
                cells.push(result.physical_ratio.clone());
            },
            MatrixSection::Storage => {
                cells.push(number::comma_u64(result.frame_count));
                cells.push(number::comma_u64(result.page_count));
                cells.push(number::comma_u64(result.compressed_payload_bytes));
                cells.push(number::comma_u64(result.uncompressed_payload_bytes));
                cells.push(result.payload_ratio.clone());
                cells.push(
                    match &result.average_frames_per_compressed_page {
                        Some(average) => average.clone(),
                        None => "-".to_owned(),
                    },
                );
            },
            MatrixSection::ReadSamples => {
                cells.push(number::comma_u64(result.random_page_iterations));
                cells.push(number::comma_u64(result.random_page_frames));
                cells.push(number::comma_u64(result.scan_iterations));
                cells.push(number::comma_u64(result.scan_frames));
                cells.push(number::comma_u64(result.range_iterations));
                cells.push(number::comma_u64(result.range_frames));
            },
            MatrixSection::Packing => {
                cells.push(number::comma_u64(result.first_page_attempts));
                cells.push(result.subsequent_average_attempts.clone());
                let least: String = number::comma_u64(result.subsequent_min_attempts);
                let most: String = number::comma_u64(result.subsequent_max_attempts);
                cells.push(text::concat3(least.as_str(), "..", most.as_str()));
            },
        }
        assert(text::views(cells@) == self.cells(rank as int, *result));
        cells
    }

    /// The table of results in the order of their ranks.
    pub fn table(self, results: &[BenchResult], order: &[usize]) -> (result: String)
        requires
            forall|i: int| 0 <= i < order@.len() ==> #[trigger] order@[i] < results@.len(),
        ensures
            result@ == output::table_text(
                self.headers(),
                self.rows(results@, order@),
                self.sides(),
            ),
    {
        let headers: Vec<String> = self.header_cells();
        let mut sides: Vec<bool> = Vec::new();
        let mut i: usize = 0;
        while i < headers.len()
            invariant
                i <= headers@.len(),
                sides@.len() == i,
                forall|j: int|
                    0 <= j < i ==> #[trigger] sides@[j] == (j == 0 || j == 3 || j >= 6),
            decreases headers@.len() - i,
        {
            sides.push(i == 0 || i == 3 || i >= 6);
            i = i + 1;
        }
        assert(text::views(headers@).len() == headers@.len());
        assert(sides@ == self.sides());
        let mut rows: Vec<Vec<String>> = Vec::new();
        let mut r: usize = 0;
        while r < order.len()
            invariant
                r <= order@.len(),
                forall|i: int| 0 <= i < order@.len() ==> #[trigger] order@[i] < results@.len(),
                rows@.len() == r,
                forall|j: int|
                    0 <= j < r ==> text::views((#[trigger] rows@[j])@) == self.cells(
                        j,
                        results@[order@[j] as int],
                    ),
            decreases order@.len() - r,
        {
            rows.push(self.result_cells(r, &results[order[r]]));
            r = r + 1;
        }
        proof {
            assert forall|j: int| 0 <= j < rows@.len() implies (#[trigger] rows@[j])@.len()
                == headers@.len() by {
                assert(text::views(rows@[j]@).len() == self.cells(
                    j,
                    results@[order@[j] as int],
                ).len());
            }
            assert(output::row_views(rows@) == self.rows(results@, order@));
        }
        output::aligned_table(&headers, &rows, sides.as_slice())
    }
}

/// What a case says of itself when it is done; `random_microseconds` and `range_microseconds` are
/// the averages of single reads.
pub fn case_done(
    case_index: usize,
    cases: usize,
    result: &BenchResult,
    random_microseconds: &str,
    range_microseconds: &str,
) -> (line: String)
    requires
        case_index < usize::MAX,
    ensures
        line@ == "case_done: "@ + number::grouped_integer(case_index + 1) + "/"@
            + number::grouped_integer(cases as int) + " physical_bytes="@ + number::grouped_integer(
            result.physical_bytes as int,
        ) + " physical_ratio="@ + result.physical_ratio@ + " elapsed_s="@ + result.convert_seconds@
            + " random_page_avg_us="@ + random_microseconds@ + " scan_avg_ms="@
            + result.scan_milliseconds@ + " range_avg_us="@ + range_microseconds@,
{
    let mut line: String = "case_done: ".to_owned();
    let index: String = number::comma_usize(case_index + 1);
    line.append(index.as_str());
    line.append("/");
    let count: String = number::comma_usize(cases);
    line.append(count.as_str());
    line.append(" physical_bytes=");
    let bytes: String = number::comma_u64(result.physical_bytes);
    line.append(bytes.as_str());
    line.append(" physical_ratio=");
    line.append(result.physical_ratio.as_str());
    line.append(" elapsed_s=");
    line.append(result.convert_seconds.as_str());
    line.append(" random_page_avg_us=");
    line.append(random_microseconds);
    line.append(" scan_avg_ms=");
    line.append(result.scan_milliseconds.as_str());
    line.append(" range_avg_us=");
    line.append(range_microseconds);
    line
}

/// What is printed of a benchmark of reads.
pub fn read_bench_text(
    mode: BenchMode,
    iterations: u64,
    total_frames: usize,
    elapsed_milliseconds: &str,
    average_microseconds: &str,
) -> (result: String)
    ensures
        result@ == "mode: "@ + mode.word() + "\niterations: "@ + number::grouped_integer(
            iterations as int,
        ) + "\ntotal_frames: "@ + number::grouped_integer(total_frames as int)
            + "\nelapsed_ms: "@ + elapsed_milliseconds@ + "\navg_iter_us: "@
            + average_microseconds@ + "\n"@,
{
    let mut out: String = "mode: ".to_owned();
    out.append(mode.as_str());
    out.append("\niterations: ");
    let times: String = number::comma_u64(iterations);
    out.append(times.as_str());
    out.append("\ntotal_frames: ");
    let frames: String = number::comma_usize(total_frames);
    out.append(frames.as_str());
    out.append("\nelapsed_ms: ");
    out.append(elapsed_milliseconds);
    out.append("\navg_iter_us: ");
    out.append(average_microseconds);
    out.append("\n");
    out
}

/// The keys that a benchmark of ranges reads between: all of them where none are named.
pub fn range_keys(first: Option<i32>, last: Option<i32>) -> (result: (i32, i32))
    ensures
        result.0 == match first {
            Some(first) => first,
            None => i32::MIN,
        },
        result.1 == match last {
            Some(last) => last,
            None => i32::MAX,
        },
{
    (
        match first {
            Some(first) => first,
            None => i32::MIN,
        },
        match last {
            Some(last) => last,
            None => i32::MAX,
        },
    )
}

/// What is printed of the keys that a benchmark of ranges reads between.
pub fn range_text(first: i32, last: i32) -> (result: String)
    ensures
        result@ == "range: ["@ + number::grouped_integer(first as int) + ", "@
            + number::grouped_integer(last as int) + "]\n"@,
{
    let mut out: String = "range: [".to_owned();
    let low: String = number::comma_i128(first as i128);
    out.append(low.as_str());
    out.append(", ");
    let high: String = number::comma_i128(last as i128);
    out.append(high.as_str());
    out.append("]\n");
    out
}

/// How often something is measured: once at least.
pub fn at_least_once(iterations: u64) -> (result: u64)
    ensures
        result == if iterations == 0 {
            1
        } else {
            iterations
        },
{
    if iterations == 0 {
        1
    } else {
        iterations
    }
}

/// The page in the middle of a file, whose keys a benchmark of ranges reads between.
pub fn range_page(page_count: u64) -> (result: Option<u64>)
    ensures
        result == if page_count > 0 {
            Some((page_count / 2) as u64)
        } else {
            None
        },
{
    if page_count > 0 {
        Some(page_count / 2)
    } else {
        None
    }
}

/// What is logged when a step of a case begins.
pub fn step_started(step: &str) -> (result: String)
    ensures
        result@ == "  test="@ + step@ + " started"@,
{
    text::concat3("  test=", step, " started")
}

/// What is logged when a step of a case has ended.
pub fn step_completed(step: &str, elapsed_seconds: &str) -> (result: String)
    ensures
        result@ == "  test="@ + step@ + " completed elapsed_s="@ + elapsed_seconds@,
{
    let mut out: String = text::concat3("  test=", step, " completed elapsed_s=");
    out.append(elapsed_seconds);
    out
}

/// What is logged when a way of reading is about to be measured.
pub fn read_started(mode: BenchMode, iterations: u64) -> (result: String)
    ensures
        result@ == "  test="@ + mode.word() + " started iterations="@ + number::grouped_integer(
            iterations as int,
        ),
{
    let mut out: String = text::concat3("  test=", mode.as_str(), " started iterations=");
    let times: String = number::comma_u64(iterations);
    out.append(times.as_str());
    out
}

/// What is logged when reading ranges is about to be measured: the page whose first and last key
/// the range lies between, or that there is none.
pub open spec fn range_started_text(
    iterations: u64,
    place: Option<(u64, Seq<char>, Seq<char>)>,
) -> Seq<char> {
    "  test=range started iterations="@ + number::grouped_integer(iterations as int) + match place {
        Some((page, first, last)) => " page="@ + number::grouped_integer(page as int)
            + " first_key="@ + first + " last_key="@ + last,
        None => " empty_file=true"@,
    }
}

/// What is logged when reading ranges is about to be measured.
pub fn range_started(iterations: u64, place: Option<(u64, &str, &str)>) -> (result: String)
    ensures
        result@ == range_started_text(
            iterations,
            match place {
                Some((page, first, last)) => Some((page, first@, last@)),
                None => None,
            },
        ),
{
    let mut out: String = "  test=range started iterations=".to_owned();
    let times: String = number::comma_u64(iterations);
    out.append(times.as_str());
    let ghost head = out@;
    match place {
        Some((page, first, last)) => {
            out.append(" page=");
            let index: String = number::comma_u64(page);
            out.append(index.as_str());
            out.append(" first_key=");
            out.append(first);
            out.append(" last_key=");
            out.append(last);
            assert(out@ == head + (" page="@ + number::grouped_integer(page as int)
                + " first_key="@ + first@ + " last_key="@ + last@));
        },
        None => {
            out.append(" empty_file=true");
        },
    }
    out
}

/// The unit that the average of a way of reading is given in: whole scans take milliseconds.
pub open spec fn average_name(mode: BenchMode) -> Seq<char> {
    if mode == BenchMode::Scan {
        " average_ms="@
    } else {
        " average_us="@
    }
}

/// What is logged when a way of reading has been measured.
pub fn read_completed(mode: BenchMode, elapsed_seconds: &str, average: &str) -> (result: String)
    ensures
        result@ == "  test="@ + mode.word() + " completed elapsed_s="@ + elapsed_seconds@
            + average_name(mode) + average@,
{
    let mut out: String = step_completed(mode.as_str(), elapsed_seconds);
    match mode {
        BenchMode::Scan => out.append(" average_ms="),
        _ => out.append(" average_us="),
    }
    out.append(average);
    out
}

/// What is printed of the conversion matrix before anything is measured.
pub open spec fn matrix_intro_text(
    color: bool,
    input: Seq<char>,
    output_dir: Seq<char>,
    cases: Seq<BenchCase>,
    runs: Seq<char>,
) -> Seq<char> {
    let head = "mode: conversion-matrix\ninput: "@ + input + "\noutput_dir: "@ + output_dir
        + "\ncases: "@ + number::grouped_integer(cases.len() as int) + "\n"@;
    let dimensions = (TomlModel { text: head, color }).blank().section(
        "conversion_matrix_dimensions"@,
    ).text + dimensions_text(cases);
    (TomlModel { text: dimensions, color }).blank().section("conversion_matrix_test_runs"@).text
        + runs + "\n"@
}

/// What is printed of the conversion matrix before anything is measured; `runs` says how often
/// everything is measured.
pub fn matrix_intro(
    color: bool,
    input: &str,
    output_dir: &str,
    cases: &[BenchCase],
    runs: &str,
) -> (result: String)
    ensures
        result@ == matrix_intro_text(color, input@, output_dir@, cases@, runs@),
{
    let mut head: String = "mode: conversion-matrix\ninput: ".to_owned();
    head.append(input);
    head.append("\noutput_dir: ");
    head.append(output_dir);
    head.append("\ncases: ");
    let count: String = number::comma_usize(cases.len());
    head.append(count.as_str());
    head.append("\n");
    let mut w: TomlWriter = TomlWriter::new(head, color);
    w.blank();
    w.section("conversion_matrix_dimensions");
    let mut dimensions: String = w.into_inner();
    let lines: String = conversion_bench_dimensions(cases);
    dimensions.append(lines.as_str());
    let mut w: TomlWriter = TomlWriter::new(dimensions, color);
    w.blank();
    w.section("conversion_matrix_test_runs");
    let mut out: String = w.into_inner();
    out.append(runs);
    out.append("\n");
    out
}

/// A table of results below its name.
pub open spec fn section_text(
    color: bool,
    section: MatrixSection,
    results: Seq<BenchResult>,
    order: Seq<usize>,
) -> Seq<char> {
    (TomlModel { text: Seq::empty(), color }).blank().section(section.title()).text
        + output::table_text(section.headers(), section.rows(results, order), section.sides())
}

/// What is printed of the conversion matrix once everything is measured: four tables of the results
/// in the order of their ranks.
pub open spec fn matrix_report_text(
    color: bool,
    results: Seq<BenchResult>,
    order: Seq<usize>,
) -> Seq<char> {
    section_text(color, MatrixSection::Summary, results, order) + section_text(
        color,
        MatrixSection::Storage,
        results,
        order,
    ) + section_text(color, MatrixSection::ReadSamples, results, order) + section_text(
        color,
        MatrixSection::Packing,
        results,
        order,
    )
}

fn section_table(
    color: bool,
    section: MatrixSection,
    results: &[BenchResult],
    order: &[usize],
) -> (result: String)
    requires
        forall|i: int| 0 <= i < order@.len() ==> #[trigger] order@[i] < results@.len(),
    ensures
        result@ == section_text(color, section, results@, order@),
{
    let empty: String = String::new();
    assert(empty@ == Seq::<char>::empty());
    let mut w: TomlWriter = TomlWriter::new(empty, color);
    w.blank();
    w.section(section.name());
    let mut out: String = w.into_inner();
    let table: String = section.table(results, order);
    out.append(table.as_str());
    out
}

/// What is printed of the conversion matrix once everything is measured.
pub fn matrix_report(color: bool, results: &[BenchResult], order: &[usize]) -> (result: String)
    requires
        forall|i: int| 0 <= i < order@.len() ==> #[trigger] order@[i] < results@.len(),
    ensures
        result@ == matrix_report_text(color, results@, order@),
{
    let mut out: String = section_table(color, MatrixSection::Summary, results, order);
    let storage: String = section_table(color, MatrixSection::Storage, results, order);
    out.append(storage.as_str());
    let samples: String = section_table(color, MatrixSection::ReadSamples, results, order);
    out.append(samples.as_str());
    let packing: String = section_table(color, MatrixSection::Packing, results, order);
    out.append(packing.as_str());
    out
}

/// The word for a page size that is measured is a page size that commands take for just that size.
pub proof fn page_size_words_are_page_sizes(index: int)
    requires
        0 <= index < 3,
    ensures
        tokens::page_size_token(page_size_word(page_size_at(index))) == Some(
            Ok::<u32, Seq<char>>(page_size_at(index)),
        ),
{
    reveal_strlit("512KiB");
    reveal_strlit("1MiB");
    reveal_strlit("2MiB");
    reveal_strlit("KiB");
    reveal_strlit("MiB");
    reveal_strlit("KB");
    reveal_strlit("MB");
    reveal_strlit("B");
    assert("KiB"@.len() == 3);
    assert("MiB"@.len() == 3);
    assert("KiB"@[0] == 'K');
    assert("MiB"@[0] == 'M');
    assert("B"@.len() == 1);
    assert("KB"@.len() == 2);
    assert("MB"@.len() == 2);
    reveal_with_fuel(number::decimal, 4);
    assert(number::decimal(512) =~= seq!['5', '1', '2']);
    assert(number::decimal(1) =~= seq!['1']);
    assert(number::decimal(2) =~= seq!['2']);
    assert(number::decimal(512) + "KiB"@ =~= "512KiB"@);
    assert(number::decimal(1) + "MiB"@ =~= "1MiB"@);
    assert(number::decimal(2) + "MiB"@ =~= "2MiB"@);
    tokens::page_sizes_count_units(512, "KiB"@);
    tokens::page_sizes_count_units(1, "MiB"@);
    tokens::page_sizes_count_units(2, "MiB"@);
}

/// The count of a choice is the number of cases that make it, and every case makes the choices of its
/// own settings and no others.
pub proof fn choices_are_counted(cases: Seq<BenchCase>, choice: Choice, case: BenchCase)
    ensures
        choice_count(cases, choice) == cases.filter(|made: BenchCase| choice.made_by(made)).len(),
        choice.made_by(case) <==> choice == Choice::PageSize(case.page_size) || choice
            == Choice::Codec(case.codec) || choice == Choice::Encoding(case.encoding) || choice
            == Choice::PagePacking(case.page_packing) || (case.zstd_level is Some && choice
            == Choice::ZstdLevel(case.zstd_level->0)),
    decreases cases.len(),
{
    reveal(Seq::filter);
    if cases.len() > 0 {
        choices_are_counted(cases.drop_last(), choice, case);
    }
}

/// A level reads back from its text, and a dash stands for none.
pub proof fn levels_read_back(level: i32)
    ensures
        number::integer_value(level_text(Some(level))) == Some(level as int),
        number::integer_value(level_text(None)) is None,
{
    reveal_strlit("-");
    number::integer_reads_back(level as int);
    assert(level_text(None).skip(1) == Seq::<char>::empty());
}

/// Results are ranked from the smallest file to the largest, and equally large ones from the fastest
/// to the slowest: no later result is smaller, or as large and faster.
pub proof fn smaller_files_rank_first(results: Seq<BenchResult>, order: Seq<usize>, p: int, q: int)
    requires
        in_rank_order(results, order),
        0 <= p < q < order.len(),
    ensures
        results[order[p] as int].physical_bytes <= results[order[q] as int].physical_bytes,
        results[order[p] as int].physical_bytes == results[order[q] as int].physical_bytes
            ==> results[order[p] as int].elapsed_bits <= results[order[q] as int].elapsed_bits,
{
    assert(ranks_before(results, order[p] as int, order[q] as int));
}

/// Of two results, one ranks before the other and not the other way round.
pub proof fn one_ranks_before(results: Seq<BenchResult>, first: int, second: int)
    ensures
        first != second ==> (ranks_before(results, first, second) <==> !ranks_before(
            results,
            second,
            first,
        )),
        !ranks_before(results, first, first),
{
}

/// A number in a table reads back below its header, in the row of its result, which starts with the
/// rank from one on and the settings of the case.
pub proof fn measures_stand_below_their_headers(
    section: MatrixSection,
    rank: int,
    result: BenchResult,
    index: int,
)
    requires
        0 <= index < section.headers().len(),
        rank >= 0,
    ensures
        ({
            let cell = section.cells(rank, result)[index];
            let count = number::integer_value(number::without_commas(cell));
            let name = section.headers()[index];
            &&& section.cells(rank, result).len() == section.headers().len()
            &&& section.sides().len() == section.headers().len()
            &&& index == 0 ==> name == "rank"@ && count == Some(rank + 1)
            &&& index == 1 ==> name == "page"@ && cell == page_size_word(result.case.page_size)
            &&& index == 2 ==> name == "codec"@ && cell == result.case.codec.word()
            &&& index == 3 ==> name == "level"@ && cell == level_text(result.case.zstd_level)
            &&& index == 4 ==> name == "encoding"@ && cell == result.case.encoding.word()
            &&& index == 5 ==> name == "packing"@ && cell == result.case.page_packing.word()
            &&& section is Summary && name == "physical_bytes"@ && index == 10 ==> count == Some(
                result.physical_bytes as int,
            )
            &&& section is Storage && index == 6 ==> name == "frames"@ && count == Some(
                result.frame_count as int,
            )
            &&& section is Storage && index == 7 ==> name == "pages"@ && count == Some(
                result.page_count as int,
            )
            &&& section is Storage && index == 8 ==> name == "compressed_bytes"@ && count == Some(
                result.compressed_payload_bytes as int,
            )
            &&& section is Storage && index == 9 ==> name == "uncompressed_bytes"@ && count == Some(
                result.uncompressed_payload_bytes as int,
            )
            &&& section is ReadSamples && index == 6 ==> name == "random_iterations"@ && count
                == Some(result.random_page_iterations as int)
            &&& section is ReadSamples && index == 7 ==> name == "random_frames"@ && count == Some(
                result.random_page_frames as int,
            )
            &&& section is ReadSamples && index == 8 ==> name == "scan_iterations"@ && count
                == Some(result.scan_iterations as int)
            &&& section is ReadSamples && index == 9 ==> name == "scan_frames"@ && count == Some(
                result.scan_frames as int,
            )
            &&& section is ReadSamples && index == 10 ==> name == "range_iterations"@ && count
                == Some(result.range_iterations as int)
            &&& section is ReadSamples && index == 11 ==> name == "range_frames"@ && count == Some(
                result.range_frames as int,
            )
            &&& section is Packing && index == 6 ==> name == "first_attempts"@ && count == Some(
                result.first_page_attempts as int,
            )
        }),
{
    number::grouped_integer_reads_back(rank + 1);
    number::grouped_integer_reads_back(result.physical_bytes as int);
    number::grouped_integer_reads_back(result.frame_count as int);
    number::grouped_integer_reads_back(result.page_count as int);
    number::grouped_integer_reads_back(result.compressed_payload_bytes as int);
    number::grouped_integer_reads_back(result.uncompressed_payload_bytes as int);
    number::grouped_integer_reads_back(result.random_page_iterations as int);
    number::grouped_integer_reads_back(result.random_page_frames as int);
    number::grouped_integer_reads_back(result.scan_iterations as int);
    number::grouped_integer_reads_back(result.scan_frames as int);
    number::grouped_integer_reads_back(result.range_iterations as int);
    number::grouped_integer_reads_back(result.range_frames as int);
    number::grouped_integer_reads_back(result.first_page_attempts as int);
}

/// No two levels have the same name in a file name, and a case without a level is told apart from
/// every level by its first letter.
pub proof fn level_names_differ(first: Option<i32>, second: Option<i32>)
    ensures
        level_name(first) == level_name(second) ==> first == second,
        level_name(first)[0] == 'z' <==> first is Some,
{
    reveal_strlit("zstd");
    reveal_strlit("nozstd");
    match (first, second) {
        (Some(one), Some(other)) => {
            assert(level_name(first).skip(4) == number::integer_text(one as int));
            assert(level_name(second).skip(4) == number::integer_text(other as int));
            number::integer_reads_back(one as int);
            number::integer_reads_back(other as int);
        },
        _ => {
            assert("zstd"@[0] == 'z');
            assert("nozstd"@[0] == 'n');
            assert(first is Some ==> level_name(first)[0] == "zstd"@[0]);
            assert(second is Some ==> level_name(second)[0] == "zstd"@[0]);
        },
    }
}

} // verus!

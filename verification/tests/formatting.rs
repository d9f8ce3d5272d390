use fwob::formatting::calendar::{civil_from_days, format_unix_timestamp};
use fwob::formatting::render::{field_width, fixed_point_null, format_fixed_point, group_number};
use fwob::formatting::rows::{hex, write_json_string};
use fwob::formatting::value::{decode_signed, decode_text, decode_unsigned};
use fwob::formatting::{FieldValue, FrameDecoder, FrameFormat, FrameFormatter};
use fwob::schema::{Field, FieldSemantic, FieldType, Schema, TimestampUnit};

fn schema() -> Schema {
    Schema::new(
        "Row",
        vec![
            Field::new("key", FieldType::SignedInteger, 4, 0),
            Field::new("price", FieldType::UnsignedInteger, 4, 4),
            Field::new("symbol", FieldType::StringTableIndex, 1, 8),
            Field::new("name", FieldType::Utf8String, 4, 9),
        ],
        0,
    )
    .unwrap()
}

fn frame() -> Vec<u8> {
    let mut frame = Vec::new();
    frame.extend_from_slice(&1234i32.to_le_bytes());
    frame.extend_from_slice(&5_678_900u32.to_le_bytes());
    frame.push(1);
    frame.extend_from_slice(b"AB  ");
    frame
}

fn render_with(schema: &Schema, frame: &[u8], format: FrameFormat) -> String {
    let strings = vec!["MSFT".to_string(), "AAPL".to_string()];
    let mut formatter = FrameFormatter::new(schema, &strings, format);
    let mut output = String::new();
    let fractions = vec![String::new(); schema.fields.len()];
    formatter.write_frame(&mut output, frame, &fractions).unwrap();
    output
}

fn render(format: FrameFormat) -> String {
    render_with(&schema(), &frame(), format)
}

#[test]
fn formats_raw_csv_json_and_hex_without_grouping() {
    assert_eq!(render(FrameFormat::Raw), "1234 5678900 AAPL AB\n");
    assert_eq!(
        render(FrameFormat::Csv),
        "key,price,symbol,name\n1234,5678900,AAPL,AB\n"
    );
    assert_eq!(
        render(FrameFormat::JsonLines),
        "{\"key\":1234,\"price\":5678900,\"symbol\":\"AAPL\",\"name\":\"AB\"}\n"
    );
    assert_eq!(render(FrameFormat::Hex), "d204000034a756000141422020\n");
}

#[test]
fn unformatted_numbers_print_raw_and_markdown_aligns_by_type() {
    // No semantic => raw integers, no comma grouping.
    let table = render(FrameFormat::Table);
    assert!(table.contains("1234"));
    assert!(table.contains("5678900"));
    assert!(!table.contains("1,234"));
    // Numeric columns get right-aligned markers (---:), strings get left (---).
    assert_eq!(
        render(FrameFormat::Markdown),
        "| key | price | symbol | name |\n| ---: | ---: | --- | --- |\n| 1234 | 5678900 | AAPL | AB |\n"
    );
}

#[test]
fn signed_fixed_point_min_is_null_but_unsigned_is_not() {
    let schema = Schema::new(
        "Calc",
        vec![
            Field::new("a", FieldType::SignedInteger, 4, 0)
                .with_semantic(FieldSemantic::FixedPoint(8)),
            Field::new("b", FieldType::UnsignedInteger, 4, 4)
                .with_semantic(FieldSemantic::FixedPoint(4)),
        ],
        0,
    )
    .unwrap();
    let mut frame = Vec::new();
    frame.extend_from_slice(&i32::MIN.to_le_bytes()); // a: null sentinel
    frame.extend_from_slice(&1_500_000u32.to_le_bytes()); // b: 150.0000 (unsigned never null)

    let render = |format| render_with(&schema, &frame, format);

    let table = render(FrameFormat::Table);
    assert!(table.contains('-'), "{table}");
    assert!(table.contains("150.0000"), "{table}");
    assert!(
        !table.contains("2147"),
        "sentinel must not render as a number: {table}"
    );
    assert_eq!(
        render(FrameFormat::JsonLines),
        "{\"a\":null,\"b\":1500000}\n"
    );
    assert_eq!(render(FrameFormat::Csv), "a,b\n,1500000\n");
    // raw keeps the exact stored integer (no null concept).
    assert_eq!(render(FrameFormat::Raw), "-2147483648 1500000\n");
    assert!(fixed_point_null(
        &schema.fields[0],
        &FieldValue::Signed(i32::MIN as i64)
    ));
}

#[test]
fn fixed_point_and_percentage_render_only_in_display_formats() {
    let schema = Schema::new(
        "Quote",
        vec![
            Field::new("price", FieldType::UnsignedInteger, 4, 0)
                .with_semantic(FieldSemantic::FixedPoint(4)),
            Field::new("ret", FieldType::SignedInteger, 4, 4)
                .with_semantic(FieldSemantic::Percentage(2)),
        ],
        0,
    )
    .unwrap();
    let mut frame = Vec::new();
    frame.extend_from_slice(&1_500_000u32.to_le_bytes()); // 150.0000
    frame.extend_from_slice(&3527i32.to_le_bytes()); // 35.27%

    let rendered = render_with(&schema, &frame, FrameFormat::Table);
    assert!(rendered.contains("150.0000"), "{rendered}");
    assert!(rendered.contains("35.27%"), "{rendered}");

    // raw keeps the underlying integers.
    assert_eq!(
        render_with(&schema, &frame, FrameFormat::Raw),
        "1500000 3527\n"
    );
}

#[test]
fn fixed_point_formatting_covers_grouping_zero_and_negative() {
    assert_eq!(format_fixed_point(1_500_000, 4, false), "150.0000");
    assert_eq!(format_fixed_point(1_111_111_111, 0, false), "1,111,111,111");
    assert_eq!(format_fixed_point(3527, 0, true), "3,527%");
    assert_eq!(format_fixed_point(3527, 4, true), "0.3527%");
    assert_eq!(format_fixed_point(-12_345, 2, false), "-123.45");
}

#[test]
fn field_width_reflects_max_possible_value() {
    let u32_field =
        |semantic| Field::new("v", FieldType::UnsignedInteger, 4, 0).with_semantic(semantic);
    assert_eq!(field_width(&u32_field(FieldSemantic::Plain), &[]), 10);
    assert_eq!(
        field_width(&u32_field(FieldSemantic::FixedPoint(0)), &[]),
        13
    );
    assert_eq!(
        field_width(&u32_field(FieldSemantic::FixedPoint(1)), &[]),
        13
    );
    assert_eq!(
        field_width(&u32_field(FieldSemantic::FixedPoint(4)), &[]),
        12
    );
    assert_eq!(
        field_width(&u32_field(FieldSemantic::Percentage(4)), &[]),
        13
    );
    assert_eq!(
        field_width(
            &Field::new("t", FieldType::UnsignedInteger, 4, 0)
                .with_semantic(FieldSemantic::UnixTimestamp(TimestampUnit::Seconds)),
            &[]
        ),
        20
    );
}

#[test]
fn field_width_is_at_least_the_header_width() {
    // A header wider than the type's max value width must widen the column.
    let name = "a_very_long_header_name";
    let field = Field::new(name, FieldType::UnsignedInteger, 1, 0); // u8 value width is 3
    assert_eq!(field_width(&field, &[]), name.chars().count());
}

#[test]
fn timestamp_semantics_are_human_readable_only_in_display_formats() {
    let schema = Schema::new(
        "Event",
        vec![Field::new("time", FieldType::SignedInteger, 8, 0)
            .with_semantic(FieldSemantic::UnixTimestamp(TimestampUnit::Milliseconds))],
        0,
    )
    .unwrap();
    let frame = 1_522_742_400_125i64.to_le_bytes();
    assert!(render_with(&schema, &frame, FrameFormat::Table).contains("2018-04-03T08:00:00.125Z"));
    assert_eq!(
        render_with(&schema, &frame, FrameFormat::Raw),
        "1522742400125\n"
    );
}

#[test]
fn table_rows_line_up_below_the_header() {
    let schema = schema();
    let strings = vec!["MSFT".to_string(), "AAPL".to_string()];
    let mut formatter = FrameFormatter::new(&schema, &strings, FrameFormat::Table);
    let mut output = String::new();
    formatter.write_header(&mut output);
    formatter.write_header(&mut output);
    let fractions = vec![String::new(); 4];
    formatter.write_frame(&mut output, &frame(), &fractions).unwrap();
    let lines: Vec<&str> = output.lines().collect();
    assert_eq!(lines.len(), 2);
    assert_eq!(lines[0], "        key       price  symbol  name");
    assert_eq!(lines[1], "       1234     5678900  AAPL    AB");
}

#[test]
fn fractions_stand_for_floating_point_fields() {
    let schema = Schema::new(
        "Row",
        vec![
            Field::new("key", FieldType::SignedInteger, 1, 0),
            Field::new("x", FieldType::FloatingPoint, 8, 1),
        ],
        0,
    )
    .unwrap();
    let mut frame = vec![7u8];
    frame.extend_from_slice(&1.5f64.to_le_bytes());
    let mut formatter = FrameFormatter::new(&schema, &[], FrameFormat::Raw);
    let mut output = String::new();
    formatter
        .write_frame(&mut output, &frame, &[String::new(), "1.5".to_owned()])
        .unwrap();
    assert_eq!(output, "7 1.5\n");

    let decoder = FrameDecoder::new(&schema, &[]);
    assert_eq!(
        decoder.decode(&frame).unwrap(),
        [FieldValue::Signed(7), FieldValue::Float64(1.5f64.to_bits())]
    );
}

#[test]
fn broken_frames_are_refused() {
    let schema = schema();
    let strings = vec!["MSFT".to_string()];
    let decoder = FrameDecoder::new(&schema, &strings);
    assert!(decoder.decode(&[0; 5]).is_err());
    assert!(decoder.decode(&frame()).is_err());
    let mut short = frame();
    short[8] = 0;
    assert!(decoder.decode(&short).is_ok());
}

#[test]
fn integers_and_texts_are_decoded() {
    assert_eq!(decode_signed(&[0xFF]).unwrap(), -1);
    assert_eq!(decode_signed(&i16::MIN.to_le_bytes()).unwrap(), -32_768);
    assert_eq!(decode_unsigned(&u64::MAX.to_le_bytes()).unwrap(), u64::MAX);
    assert!(decode_signed(&[0; 3]).is_err());
    assert!(decode_unsigned(&[]).is_err());
    assert_eq!(decode_text(b"ab \0\0"), "ab");
    assert_eq!(decode_text("h\u{e9}  ".as_bytes()), "h\u{e9}");
    assert_eq!(decode_text(&[0x61, 0xFF, 0x62]), "a\u{fffd}b");
}

#[test]
fn days_have_dates() {
    assert_eq!(civil_from_days(0), Some((1970, 1, 1)));
    assert_eq!(civil_from_days(-1), Some((1969, 12, 31)));
    assert_eq!(civil_from_days(11_016), Some((2000, 2, 29)));
    assert_eq!(civil_from_days(17_624), Some((2018, 4, 3)));
    assert_eq!(civil_from_days(i64::MAX), None);
}

#[test]
fn timestamps_keep_their_precision() {
    let text = |value, unit| format_unix_timestamp(value, unit).unwrap();
    assert_eq!(text(0, TimestampUnit::Seconds), "1970-01-01T00:00:00Z");
    assert_eq!(text(-1, TimestampUnit::Milliseconds), "1969-12-31T23:59:59.999Z");
    assert_eq!(
        text(1_000_001, TimestampUnit::Microseconds),
        "1970-01-01T00:00:01.000001Z"
    );
    assert_eq!(
        text(86_400_000_000_005, TimestampUnit::Nanoseconds),
        "1970-01-02T00:00:00.000000005Z"
    );
}

#[test]
fn format_words_read_back() {
    for format in [
        FrameFormat::Raw,
        FrameFormat::Table,
        FrameFormat::Markdown,
        FrameFormat::Csv,
        FrameFormat::JsonLines,
        FrameFormat::Hex,
    ] {
        assert_eq!(FrameFormat::parse(format.as_str()), Some(format));
    }
    assert_eq!(FrameFormat::parse("RAW"), None);
}

#[test]
fn small_texts() {
    assert_eq!(hex(&[0, 0xAB, 0x1F]), "00ab1f");
    assert_eq!(group_number("-1234567.25"), "-1,234,567.25");
    assert_eq!(group_number("1234567e10"), "1,234,567e10");
    assert_eq!(group_number("-123"), "-123");
    assert_eq!(group_number("\u{e9}ab"), "\u{e9},ab");
    let mut out = String::new();
    write_json_string(&mut out, "a\"\\\n\u{1}");
    assert_eq!(out, "\"a\\\"\\\\\\n\\u0001\"");
}

#[test]
fn quotes_are_written_in_every_format() {
    let schema = Schema::new(
        "Quote",
        vec![
            Field::new("time", FieldType::SignedInteger, 8, 0)
                .with_semantic(FieldSemantic::UnixTimestamp(TimestampUnit::Milliseconds)),
            Field::new("price", FieldType::UnsignedInteger, 4, 8),
            Field::new("symbol", FieldType::StringTableIndex, 1, 12),
            Field::new("name", FieldType::Utf8String, 4, 13),
        ],
        0,
    )
    .unwrap();
    let mut frame = Vec::new();
    frame.extend_from_slice(&1_522_742_400_125i64.to_le_bytes());
    frame.extend_from_slice(&5_678_900u32.to_le_bytes());
    frame.push(1);
    frame.extend_from_slice(b"AB  ");
    for (format, expected) in [
        (FrameFormat::Raw, "1522742400125 5678900 AAPL AB\n"),
        (
            FrameFormat::Table,
            "                    time       price  symbol  name\n\
             2018-04-03T08:00:00.125Z     5678900  AAPL    AB\n",
        ),
        (
            FrameFormat::Markdown,
            "| time | price | symbol | name |\n| ---: | ---: | --- | --- |\n\
             | 2018-04-03T08:00:00.125Z | 5678900 | AAPL | AB |\n",
        ),
        (
            FrameFormat::Csv,
            "time,price,symbol,name\n1522742400125,5678900,AAPL,AB\n",
        ),
        (
            FrameFormat::JsonLines,
            "{\"time\":1522742400125,\"price\":5678900,\"symbol\":\"AAPL\",\"name\":\"AB\"}\n",
        ),
        (FrameFormat::Hex, "7d14858a6201000034a756000141422020\n"),
    ] {
        assert_eq!(render_with(&schema, &frame, format), expected, "{}", format.as_str());
    }
}

#[test]
fn only_shown_numbers_need_few_decimal_places() {
    let schema = Schema::new(
        "Tiny",
        vec![Field::new("value", FieldType::SignedInteger, 4, 0)
            .with_semantic(FieldSemantic::FixedPoint(60))],
        0,
    )
    .unwrap();
    let frame = 42i32.to_le_bytes();
    assert_eq!(render_with(&schema, &frame, FrameFormat::Raw), "42\n");
    assert_eq!(render_with(&schema, &frame, FrameFormat::Csv), "value\n42\n");
    assert_eq!(render_with(&schema, &frame, FrameFormat::JsonLines), "{\"value\":42}\n");
    assert_eq!(render_with(&schema, &frame, FrameFormat::Hex), "2a000000\n");
}

#[test]
fn json_strings_are_read_back() {
    for value in ["", "plain", "a\"b\\c/", "\n\r\t", "\u{0}\u{1}\u{1f}\u{7f}", "caf\u{e9} \u{1f600}"] {
        let mut output = String::new();
        write_json_string(&mut output, value);
        let read: String = serde_json::from_str(&output).unwrap();
        assert_eq!(read, value);
    }
}

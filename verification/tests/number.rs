use fwob::number::{
    comma_i128, comma_u128, comma_u64, comma_usize, decimal_string, group_decimal, integer_string,
    push_hex, push_zero_padded, read_integer, read_natural, ten_to,
};
use fwob::text::{join, same_but_case, split, trim};

#[test]
fn numbers_are_written_in_decimal() {
    assert_eq!(decimal_string(0), "0");
    assert_eq!(decimal_string(u128::MAX), u128::MAX.to_string());
    assert_eq!(integer_string(i128::MIN), i128::MIN.to_string());
    let mut out = String::new();
    push_zero_padded(&mut out, 7, 3);
    push_zero_padded(&mut out, 1234, 3);
    assert_eq!(out, "0071234");
}

#[test]
fn digits_are_grouped_by_three() {
    assert_eq!(comma_u64(0), "0");
    assert_eq!(comma_u64(999), "999");
    assert_eq!(comma_u64(1_000), "1,000");
    assert_eq!(comma_usize(1_234_567), "1,234,567");
    assert_eq!(comma_i128(-1_234), "-1,234");
    assert_eq!(comma_i128(-999), "-999");
    assert_eq!(comma_u128(u128::MAX), "340,282,366,920,938,463,463,374,607,431,768,211,455");
}

#[test]
fn rendered_decimals_are_grouped_before_the_point() {
    assert_eq!(group_decimal("1234.5678"), "1,234.5678");
    assert_eq!(group_decimal("-1234567.25"), "-1,234,567.25");
    assert_eq!(group_decimal("12"), "12");
    assert_eq!(group_decimal("0.0001"), "0.0001");
}

#[test]
fn numbers_are_read() {
    assert_eq!(read_integer("-12", -128, 127), Some(-12));
    assert_eq!(read_integer("+12", -128, 127), Some(12));
    assert_eq!(read_integer("128", -128, 127), None);
    assert_eq!(read_integer("1a", -128, 127), None);
    assert_eq!(read_integer("", -128, 127), None);
    assert_eq!(read_natural("-0", 255), None);
    assert_eq!(read_natural("00255", 255), Some(255));
    assert_eq!(ten_to(8), 100_000_000);
}

#[test]
fn bytes_are_written_in_hexadecimal() {
    let mut out = String::new();
    push_hex(&mut out, &[0x00, 0x9F, 0xFF]);
    assert_eq!(out, "009fff");
}

#[test]
fn texts_are_taken_apart() {
    assert_eq!(split("a:b::c", ':'), ["a", "b", "", "c"]);
    assert_eq!(split("", ':'), [""]);
    assert_eq!(trim(" \ta b\n\u{2003}"), "a b");
    assert!(same_but_case("YeS", "yes"));
    assert!(!same_but_case("\u{c9}", "\u{e9}"));
    assert_eq!(join(&["a".to_owned(), "b".to_owned()], ", "), "a, b");
}

use fwob::key::{key_value, Key, KeyType};
use fwob::options::{format_name, format_of};
use fwob::schema::{Field, FieldType};
use fwob::{detect_format, Error, FormatVersion};

#[test]
fn key_types_follow_fields() {
    let kind = |field_type, length| KeyType::from_field(&Field::new("k", field_type, length, 0));
    assert_eq!(kind(FieldType::SignedInteger, 1).unwrap(), KeyType::I8);
    assert_eq!(kind(FieldType::SignedInteger, 8).unwrap(), KeyType::I64);
    assert_eq!(kind(FieldType::UnsignedInteger, 2).unwrap(), KeyType::U16);
    assert_eq!(kind(FieldType::FloatingPoint, 4).unwrap(), KeyType::F32);
    assert_eq!(kind(FieldType::FloatingPoint, 16).unwrap(), KeyType::Decimal);
    assert!(kind(FieldType::SignedInteger, 3).is_err());
    assert!(kind(FieldType::Utf8String, 4).is_err());
}

#[test]
fn integer_keys_read_back() {
    for (kind, text) in [
        (KeyType::I8, "-128"),
        (KeyType::I16, "32767"),
        (KeyType::I32, "-2147483648"),
        (KeyType::I64, "9223372036854775807"),
        (KeyType::U8, "255"),
        (KeyType::U16, "0"),
        (KeyType::U32, "4294967295"),
        (KeyType::U64, "18446744073709551615"),
    ] {
        let key = Key::parse(kind, text).unwrap();
        assert_eq!(key_value(key, ""), text);
    }
    assert_eq!(Key::parse(KeyType::I32, "+7").unwrap(), Key::I32(7));
    for text in ["", "-", "1.5", "2147483648", " 1"] {
        assert!(Key::parse(KeyType::I32, text).is_err(), "{text}");
    }
}

#[test]
fn keys_are_ordered_by_value() {
    let before = |left: Key, right: Key| left.is_before(&right);
    assert!(before(Key::I8(-1), Key::I8(0)));
    assert!(!before(Key::U64(1), Key::U64(1)));
    let float = |value: f64| Key::F64(value.to_bits());
    assert!(before(float(-2.5), float(-1.5)));
    assert!(before(float(-1.0), float(0.0)));
    assert!(!before(float(0.0), float(-0.0)));
    assert!(before(float(-0.0), float(1e-300)));
    let single = |value: f32| Key::F32(value.to_bits());
    assert!(before(single(1.5), single(2.5)));
    assert!(!before(single(-1.5), single(-2.5)));
    let decimal = |mantissa, scale| Key::Decimal { mantissa, scale };
    assert!(before(decimal(15, 1), decimal(151, 2)));
    assert!(!before(decimal(150, 2), decimal(15, 1)));
    assert!(before(decimal(-1, 0), decimal(1, 28)));
}

#[test]
fn signatures_name_the_format() {
    assert_eq!(detect_format("a", b"FWOB").unwrap(), FormatVersion::V1);
    assert_eq!(detect_format("a", b"FWB2").unwrap(), FormatVersion::V2);
    assert!(matches!(
        detect_format("a.bin", b"FWOX"),
        Err(Error::UnsupportedFormat(path)) if path == "a.bin"
    ));
    assert_eq!(format_of(b"FWO"), None);
    assert_eq!(format_name(FormatVersion::V2), "fwob-v2");
}

#[test]
fn errors_say_what_went_wrong() {
    for (error, message) in [
        (Error::UnsupportedFormat("x".to_owned()), "unsupported FWOB file format: x"),
        (Error::EmptySources, "at least one source file is required"),
        (Error::EmptySplitKeys, "at least one split key is required"),
        (Error::UnsortedSplitKeys, "split keys must be sorted"),
        (Error::IncompatibleFormat, "source files use different FWOB format versions"),
        (Error::IncompatibleSchema, "source files use incompatible schemas"),
        (Error::IncompatibleTitle, "source files use incompatible titles"),
        (Error::IncompatibleStringTable, "source files use incompatible string tables"),
        (Error::IncompatibleKeyOrder, "source frame keys are not globally ordered"),
        (Error::SchemaMismatch, "typed frame schema does not match the file schema"),
    ] {
        assert_eq!(error.message(), message);
    }
}

#[test]
fn keys_know_their_kind() {
    assert_eq!(Key::U16(3).key_type(), KeyType::U16);
    assert_eq!(Key::F32(0).key_type(), KeyType::F32);
    let decimal = Key::Decimal { mantissa: 5, scale: 28 };
    assert_eq!(decimal.key_type(), KeyType::Decimal);
    assert!(decimal.is_valid());
    assert!(!Key::Decimal { mantissa: 5, scale: 29 }.is_valid());
    assert!(Key::I8(-1).is_valid());
    assert_eq!(key_value(Key::F64(0), "NaN"), "nan");
}

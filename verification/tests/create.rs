use fwob::cli::arguments::{TargetFormat, DEFAULT_TARGET_FORMAT};
use fwob::cli::create::{
    created_title, ensure_output_available, parse_field_type, print_created,
    schema_from_create_args,
};
use fwob::cli::targets::parse_create_target;
use fwob::schema::{FieldSemantic, FieldType};
use fwob::toml::TomlWriter;

fn words(values: &[&str]) -> Vec<String> {
    values.iter().map(|value| value.to_string()).collect()
}

#[test]
fn field_type_tokens_are_case_sensitive() {
    assert_eq!(parse_field_type("u").unwrap(), FieldType::UnsignedInteger);
    assert!(parse_field_type("U").is_err());
}

#[test]
fn create_defaults_to_v2() {
    assert!(matches!(DEFAULT_TARGET_FORMAT, TargetFormat::V2));
    assert!(matches!(
        parse_create_target(&["created.fwob".to_owned()]).unwrap().0,
        TargetFormat::V2
    ));
}

#[test]
fn every_field_type_word_is_known() {
    for (word, field_type) in [
        ("i", FieldType::SignedInteger),
        ("signed-integer", FieldType::SignedInteger),
        ("uint", FieldType::UnsignedInteger),
        ("floating", FieldType::FloatingPoint),
        ("string", FieldType::Utf8String),
        ("stridx", FieldType::StringTableIndex),
        ("string-table-index", FieldType::StringTableIndex),
    ] {
        assert_eq!(parse_field_type(word).unwrap(), field_type);
    }
    assert_eq!(
        parse_field_type("bool").unwrap_err(),
        "unsupported field type 'bool'"
    );
}

#[test]
fn schema_is_spelled_out_field_by_field() {
    let schema = schema_from_create_args(
        Some("Tick"),
        &words(&["Time:i:4", "Value:f:8", "Str:string-index:+4"]),
        0,
    )
    .unwrap();
    assert_eq!(schema.frame_type, "Tick");
    assert_eq!(schema.frame_len, 16);
    assert_eq!(schema.key_field_index, 0);
    let offsets: Vec<u32> = schema.fields.iter().map(|field| field.offset).collect();
    assert_eq!(offsets, [0, 4, 12]);
    assert_eq!(schema.fields[1].name, "Value");
    assert_eq!(schema.fields[1].field_type, FieldType::FloatingPoint);
    assert_eq!(schema.fields[2].length, 4);
    assert_eq!(schema.fields[2].semantic, FieldSemantic::Plain);
}

#[test]
fn schema_arguments_are_refused_with_a_reason() {
    let refusal = |frame_type: Option<&str>, fields: &[&str], key: usize| {
        schema_from_create_args(frame_type, &words(fields), key).unwrap_err()
    };
    assert_eq!(
        refusal(None, &["Time:i:4"], 0),
        "--frame-type is required when --template is omitted"
    );
    assert_eq!(
        refusal(Some("T"), &[], 0),
        "at least one --field is required when --template is omitted"
    );
    for broken in ["", ":i:4", "Time", "Time:i", "Time:i:4:5"] {
        assert_eq!(
            refusal(Some("T"), &[broken], 0),
            "--field must use name:type:length"
        );
    }
    assert_eq!(
        refusal(Some("T"), &["Time:x:4"], 0),
        "unsupported field type 'x'"
    );
    assert_eq!(
        refusal(Some("T"), &["Time:i:"], 0),
        "invalid field length in 'Time:i:'"
    );
    assert_eq!(
        refusal(Some("T"), &["Time:i:65536"], 0),
        "invalid field length in 'Time:i:65536'"
    );
    assert_eq!(
        refusal(Some("T"), &["Time:i:0"], 0),
        "field 'Time' length must be greater than zero"
    );
    assert_eq!(
        refusal(Some("T"), &["Time:i:4", "X:i:-1"], 0),
        "invalid field length in 'X:i:-1'"
    );
    assert!(refusal(Some("T"), &["Time:i:4"], 1).contains("key field index is out of range"));
}

#[test]
fn title_falls_back_to_template_and_stem() {
    let text = |value: &str| Some(value.to_owned());
    assert_eq!(created_title(text("a"), text("b"), text("c")), "a");
    assert_eq!(created_title(None, text("b"), text("c")), "b");
    assert_eq!(created_title(None, None, text("c")), "c");
    assert_eq!(created_title(None, None, None), "FWOB");
}

#[test]
fn existing_output_is_kept_without_force() {
    assert!(ensure_output_available("x.fwob", false, false).is_ok());
    assert!(ensure_output_available("x.fwob", true, true).is_ok());
    assert_eq!(
        ensure_output_available("x.fwob", true, false).unwrap_err(),
        "output x.fwob already exists; pass --force to replace it"
    );
}

#[test]
fn created_file_is_reported() {
    let mut w = TomlWriter::new(String::new(), false);
    print_created(&mut w, "x.fwob");
    assert_eq!(w.into_inner(), "[new]\noutput = \"x.fwob\"\n");
}

use fwob::cli::arguments::{DeletionPackingArg, TargetFormat};
use fwob::cli::mutate::{
    check_edit_files, edit_outcome, edit_targets, parse_semantic, parse_semantic_updates,
    plan_semantic_edit, print_deletion, print_edited, print_parts, relaxed_semantics_warning,
    validate_semantic_updates, EditRequest,
};
use fwob::schema::{Field, FieldSemantic, FieldType, Schema, TimestampUnit};
use fwob::toml::TomlWriter;
use fwob::FormatVersion;

fn texts(values: &[&str]) -> Vec<String> {
    values.iter().map(|value| value.to_string()).collect()
}

fn schema() -> Schema {
    Schema::new(
        "Tick",
        vec![
            Field::new("time", FieldType::SignedInteger, 8, 0),
            Field::new("price", FieldType::UnsignedInteger, 4, 8),
            Field::new("name", FieldType::Utf8String, 4, 12),
        ],
        0,
    )
    .unwrap()
}

fn request() -> EditRequest {
    EditRequest {
        title: None,
        frame_type: None,
        append_strings: Vec::new(),
        clear_strings: false,
        set_semantics: Vec::new(),
    }
}

fn render(f: impl FnOnce(&mut TomlWriter)) -> String {
    let mut w = TomlWriter::new(String::new(), false);
    f(&mut w);
    w.into_inner()
}

#[test]
fn edits_must_ask_for_something() {
    assert_eq!(
        request().check().unwrap_err(),
        "edit requires --title, --frame-type, --append-string, --clear-strings, or --set-semantic"
    );
    assert!(EditRequest { clear_strings: true, ..request() }.check().is_ok());
    let semantics = EditRequest { set_semantics: texts(&["time=none"]), ..request() };
    assert!(semantics.check().is_ok());
    assert!(!semantics.edits_metadata());
    assert!(EditRequest { frame_type: Some("T".to_owned()), ..request() }.edits_metadata());
}

#[test]
fn strings_are_cleared_before_others_are_appended() {
    let current = texts(&["a"]);
    assert_eq!(request().strings(&current), None);
    let append = EditRequest { append_strings: texts(&["b", "a"]), ..request() };
    assert_eq!(append.strings(&current).unwrap(), ["a", "b", "a"]);
    let clear = EditRequest {
        append_strings: texts(&["b"]),
        clear_strings: true,
        ..request()
    };
    assert_eq!(clear.strings(&current).unwrap(), ["b"]);
    let empty = EditRequest { clear_strings: true, ..request() };
    assert!(empty.strings(&current).unwrap().is_empty());
}

#[test]
fn edits_reach_the_current_directory_by_default() {
    assert_eq!(edit_targets(&[]), ["."]);
    assert_eq!(edit_targets(&texts(&["a", "b"])), ["a", "b"]);
    assert!(check_edit_files(1).is_ok());
    assert_eq!(check_edit_files(0).unwrap_err(), "no .fwob files found to edit");
    assert!(edit_outcome(0, 5).is_ok());
    assert_eq!(edit_outcome(2, 5).unwrap_err(), "2 of 5 file(s) could not be edited");
}

#[test]
fn semantic_words() {
    for (word, semantic) in [
        ("none", FieldSemantic::Plain),
        ("unix-seconds", FieldSemantic::UnixTimestamp(TimestampUnit::Seconds)),
        ("unix-milliseconds", FieldSemantic::UnixTimestamp(TimestampUnit::Milliseconds)),
        ("unix-microseconds", FieldSemantic::UnixTimestamp(TimestampUnit::Microseconds)),
        ("unix-nanoseconds", FieldSemantic::UnixTimestamp(TimestampUnit::Nanoseconds)),
        ("fixed-0", FieldSemantic::FixedPoint(0)),
        ("fixed-8", FieldSemantic::FixedPoint(8)),
        ("percent-4", FieldSemantic::Percentage(4)),
    ] {
        assert_eq!(parse_semantic(word), Some(semantic));
    }
    for word in ["", "NONE", "fixed-9", "fixed-", "percent-10"] {
        assert_eq!(parse_semantic(word), None, "{word}");
    }
}

#[test]
fn semantic_updates_name_fields() {
    let schema = schema();
    let updates =
        parse_semantic_updates(&texts(&["time=unix-seconds", "price=fixed-2"]), &schema).unwrap();
    let updated = validate_semantic_updates(&schema, &updates).unwrap();
    assert_eq!(
        updated.fields[0].semantic,
        FieldSemantic::UnixTimestamp(TimestampUnit::Seconds)
    );
    assert_eq!(updated.fields[1].semantic, FieldSemantic::FixedPoint(2));
    assert_eq!(updated.fields[2].semantic, FieldSemantic::Plain);
    assert_eq!(updated.fields[1].offset, 8);

    let refusal = |value: &str| parse_semantic_updates(&texts(&[value]), &schema).unwrap_err();
    assert_eq!(refusal("time"), "--set-semantic expects NAME=VALUE, got 'time'");
    assert_eq!(refusal("nope=none"), "field 'nope' not found in schema");
    assert!(refusal("time=days").starts_with("unknown semantic 'days'; expected none,"));
    let updates = parse_semantic_updates(&texts(&["name=unix-seconds"]), &schema).unwrap();
    assert!(validate_semantic_updates(&schema, &updates).is_err());
}

#[test]
fn semantic_edits_are_made_whole_or_not_at_all() {
    let schema = schema();
    let edit = |format, values: &[&str]| plan_semantic_edit(format, &schema, &texts(values));
    let updates = edit(FormatVersion::V2, &["price=percent-1", "time=none"]).unwrap();
    assert_eq!(updates.len(), 2);
    assert_eq!(updates[0].name, "price");
    assert_eq!(updates[0].semantic, FieldSemantic::Percentage(1));
    assert!(edit(FormatVersion::V1, &[]).unwrap().is_empty());
    assert_eq!(
        edit(FormatVersion::V1, &["price=fixed-1"]).unwrap_err(),
        "v1 files cannot store field semantics; convert to v2 first"
    );
    assert_eq!(
        edit(FormatVersion::V2, &["price=fixed-1", "size=none"]).unwrap_err(),
        "field 'size' not found in schema"
    );
    assert!(edit(FormatVersion::V2, &["price=fixed-1", "name=fixed-1"])
        .unwrap_err()
        .starts_with("invalid schema: "));
}

#[test]
fn edited_files_are_reported() {
    let schema = Schema::new(
        "Tick",
        vec![
            Field::new("time", FieldType::SignedInteger, 8, 0)
                .with_semantic(FieldSemantic::UnixTimestamp(TimestampUnit::Nanoseconds)),
            Field::new("price", FieldType::UnsignedInteger, 4, 8),
        ],
        0,
    )
    .unwrap();
    assert_eq!(
        render(|w| print_edited(w, "a.fwob", "ticks", &schema, 3)),
        "[[edit]]\npath = \"a.fwob\"\ntitle = \"ticks\"\nframe_type = \"Tick\"\n\
         string_count = 3\nsemantic.time = \"unix-nanoseconds\"\n"
    );
    let schema = Schema::new(
        "Tick",
        vec![Field::new("event time", FieldType::SignedInteger, 8, 0)
            .with_semantic(FieldSemantic::UnixTimestamp(TimestampUnit::Seconds))],
        0,
    )
    .unwrap();
    assert_eq!(
        render(|w| print_edited(w, "a.fwob", "ticks", &schema, 0)),
        "[[edit]]\npath = \"a.fwob\"\ntitle = \"ticks\"\nframe_type = \"Tick\"\n\
         string_count = 0\nsemantic.\"event time\" = \"unix-seconds\"\n"
    );
}

#[test]
fn deletions_and_parts_are_reported() {
    assert_eq!(
        render(|w| print_deletion(w, 2, 1, 30, DeletionPackingArg::RepackToEnd, false)),
        "selector_count = 2\nrange_count = 1\ndeleted_frames = 30\n\
         deletion_packing = \"repack-to-end\"\ncompress_partial_page = false\n"
    );
    assert_eq!(
        render(|w| print_parts(w, &texts(&["d/a.part0.fwob", "d/a.part1.fwob"]))),
        "parts = 2\npart_0 = \"d/a.part0.fwob\"\npart_1 = \"d/a.part1.fwob\"\n"
    );
    assert!(relaxed_semantics_warning(TargetFormat::V1).ends_with("dropped for v1 output"));
    assert!(relaxed_semantics_warning(TargetFormat::V2).ends_with("preserved in v2 output"));
}

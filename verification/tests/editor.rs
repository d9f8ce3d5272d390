use fwob::deletion::{
    page_options, retained_frames, validate_ranges, PageDeletion, PageStep, PagedFile,
};
use fwob::editor::check_key_order;
use fwob::key::Key;
use fwob::options::{Codec, CodecSelection, Encoding, EncodingSelection, PageOptions};
use fwob::schema::{ensure_schema, Field, FieldSemantic, FieldType, Schema};
use fwob::{DeletionPacking, Editor, Error, FormatVersion, OperationOptions};

fn schema(frame_type: &str) -> Schema {
    Schema::new(
        frame_type,
        vec![Field::new("time", FieldType::SignedInteger, 4, 0)],
        0,
    )
    .unwrap()
}

fn editor(frame_count: u64) -> Editor {
    Editor {
        format_version: FormatVersion::V2,
        schema: schema("Tick"),
        title: "ticks".to_owned(),
        string_table: vec!["MSFT".to_owned()],
        frame_count,
        operation_options: OperationOptions::default(),
    }
}

#[test]
fn ranges_are_counted_once_they_are_apart() {
    assert_eq!(validate_ranges(&[0..2, 2..2, 5..10], 10).unwrap(), 7);
    assert_eq!(validate_ranges(&[], 10).unwrap(), 0);
    for ranges in [vec![3..5, 4..6], vec![5..6, 1..2], vec![8..11], vec![5..4]] {
        assert!(matches!(
            validate_ranges(&ranges, 10),
            Err(Error::InvalidFrameRange { frame_count: 10, .. })
        ));
    }
}

#[test]
fn indices_must_increase() {
    let deletion = editor(10).delete_indices(&[1, 4, 9]).unwrap();
    assert_eq!(deletion.ranges, [1..2, 4..5, 9..10]);
    assert_eq!(deletion.removed, 3);
    assert_eq!(
        editor(10).delete_indices(&[4, 4]).unwrap_err().message(),
        "invalid schema: frame indices must be strictly increasing"
    );
    assert!(matches!(
        editor(10).delete_indices(&[u64::MAX]),
        Err(Error::InvalidFrameRange { start: u64::MAX, end: u64::MAX, frame_count: 10 })
    ));
}

#[test]
fn one_frame_or_none_is_deleted() {
    let deletion = editor(10).delete_frame(9).unwrap();
    assert_eq!((deletion.ranges, deletion.removed), (vec![9..10], 1));
    assert!(editor(10).delete_frame(10).is_none());
    assert_eq!(editor(10).delete_frames(2, 5).unwrap().removed, 3);
    assert_eq!(editor(10).delete_all_frames().unwrap().removed, 10);
}

#[test]
fn keys_are_deleted_in_order() {
    let keys = [Key::I32(1), Key::I32(1), Key::I32(3), Key::I32(7)];
    let deletion = editor(10)
        .delete_keys(&keys, &[2..4, 2..4, 5..5, 8..9])
        .unwrap();
    assert_eq!(deletion.ranges, [2..4, 8..9]);
    assert_eq!(deletion.removed, 3);
    assert!(matches!(
        editor(10).delete_keys(&[Key::I32(2), Key::I32(1)], &[0..1, 1..2]),
        Err(Error::UnsortedKeys)
    ));
}

#[test]
fn ranges_of_keys_are_deleted() {
    let editor = editor(10);
    let deleted = editor
        .delete_key_range(Key::I32(2), Key::I32(5), 1, 6)
        .unwrap();
    assert_eq!((deleted.ranges, deleted.removed), (vec![1..6], 5));
    let reversed = editor
        .delete_key_range(Key::I32(5), Key::I32(2), 6, 1)
        .unwrap();
    assert_eq!(reversed.removed, 0);
    assert_eq!(editor.delete_before(4).unwrap().ranges, [0..4]);
    assert_eq!(editor.delete_after(4).unwrap().ranges, [4..10]);
    assert_eq!(editor.delete_key(4..6).unwrap().removed, 2);
}

#[test]
fn deleted_frames_no_longer_count() {
    let mut editor = editor(10);
    let deletion = editor.delete_frames(2, 5).unwrap();
    editor.deleted(&deletion);
    assert_eq!(editor.frame_count, 7);
    assert_eq!(editor.title, "ticks");
}

#[test]
fn unchanged_metadata_is_not_written() {
    let editor = editor(1);
    assert!(editor.update_metadata(None, None, None).is_none());
    assert!(editor.set_title("ticks").is_none());
    assert!(editor.set_frame_type("Tick").is_none());
    assert!(editor.replace_string_table(&["MSFT".to_owned()]).is_none());
}

#[test]
fn changed_metadata_replaces_what_was_there() {
    let mut editor = editor(1);
    let change = editor
        .update_metadata(Some("Quote"), Some("quotes"), Some(&[]))
        .unwrap();
    editor.updated(change);
    assert_eq!(editor.schema.frame_type, "Quote");
    assert_eq!(editor.title, "quotes");
    assert!(editor.string_table.is_empty());
    assert!(editor.clear_string_table().is_none());
    let change = editor.set_title("x").unwrap();
    assert_eq!(change.frame_type, "Quote");
    assert_eq!(change.title, "x");
}

#[test]
fn appended_strings_take_the_next_index() {
    let (index, strings) = editor(1).append_string("AAPL").unwrap();
    assert_eq!(index, 1);
    assert_eq!(strings, ["MSFT", "AAPL"]);
}

#[test]
fn frames_outside_the_ranges_are_retained() {
    let raw: Vec<u8> = (0..12).collect();
    assert_eq!(
        retained_frames(10, 6, 2, &raw, &[3..5, 11..13, 15..40]),
        [0, 1, 6, 7, 8, 9]
    );
    assert_eq!(retained_frames(10, 6, 2, &raw, &[]), raw);
    assert!(retained_frames(10, 6, 2, &raw, &[0..16]).is_empty());
}

#[test]
fn pages_are_packed_until_they_fit() {
    let file = PagedFile { page_count: 5, page_size: 1024, frame_count: 100 };
    let local = PageDeletion::begin(file, 10, 1, 2, 20, DeletionPacking::LocalRepack);
    assert_eq!(local.end_page, 2);
    assert_eq!(local.step(2), PageStep::Replace);
    let PageStep::Extend(wider) = local.step(3) else {
        panic!("one page more is needed");
    };
    assert_eq!(wider.end_page, 3);
    let to_end = PageDeletion::begin(file, 10, 1, 2, 20, DeletionPacking::RepackToEnd);
    assert_eq!(to_end.end_page, 4);
    assert_eq!(to_end.step(9), PageStep::Replace);

    assert_eq!(local.replacement(1, 7), (2, 27));
    assert_eq!(local.relocation(3, 1, 60), (2, 50));
    assert_eq!(local.outcome(1, 4096), (4, 90, 4096 + 4 * 1024));
}

#[test]
fn pages_keep_the_kind_of_the_first_that_is_packed() {
    let options = page_options(
        None,
        DeletionPacking::LocalRepack,
        2048,
        Codec::Lz4,
        Encoding::RowRawV1,
    );
    assert_eq!(options.codec_selection, CodecSelection::Fixed(Codec::Lz4));
    assert_eq!(
        options.encoding_selection,
        EncodingSelection::Fixed(Encoding::RowRawV1)
    );
    assert_eq!(options.page_size, 2048);
    assert!(options.compress_partial_page);

    let asked = PageOptions { zstd_level: 9, ..PageOptions::new() };
    let options = page_options(
        Some(asked),
        DeletionPacking::RepackToEnd,
        2048,
        Codec::Lz4,
        Encoding::RowRawV1,
    );
    assert_eq!(options, PageOptions { page_size: 2048, ..asked });
}

#[test]
fn typed_frames_need_their_own_schema() {
    assert!(ensure_schema(&schema("Tick"), &schema("Tick")).is_ok());
    assert!(matches!(
        ensure_schema(&schema("Tick"), &schema("Quote")),
        Err(Error::SchemaMismatch)
    ));
    let with_semantic = Schema::new(
        "Tick",
        vec![Field::new("time", FieldType::SignedInteger, 4, 0)
            .with_semantic(FieldSemantic::FixedPoint(2))],
        0,
    )
    .unwrap();
    assert!(ensure_schema(&with_semantic, &schema("Tick")).is_err());
    assert!(with_semantic.is_compatible(&schema("Tick")));
}

#[test]
fn editors_tell_what_they_know() {
    let mut editor = editor(10);
    assert_eq!(editor.format_version(), FormatVersion::V2);
    assert_eq!(editor.title(), "ticks");
    assert_eq!(editor.schema().frame_type, "Tick");
    assert_eq!(editor.string_table(), ["MSFT"]);
    assert_eq!(editor.frame_count(), 10);
    let change = editor.set_title("quotes").unwrap();
    editor.updated(change);
    assert_eq!(editor.title(), "quotes");
    let deletion = editor.delete_frames(2, 5).unwrap();
    editor.deleted(&deletion);
    assert_eq!(editor.frame_count(), 7);
}

#[test]
fn the_order_of_keys_is_known_before_their_places() {
    assert!(check_key_order(&[]).is_ok());
    assert!(check_key_order(&[Key::I32(1), Key::I32(1), Key::I32(2)]).is_ok());
    assert!(matches!(
        check_key_order(&[Key::I32(1), Key::I32(0)]),
        Err(Error::UnsortedKeys)
    ));
}

use fwob::key::Key;
use fwob::options::{Codec, CodecSelection, Encoding, EncodingSelection, PageOptions};
use fwob::organization::{
    check_split_keys, concat_uses_relaxed_semantics, copy_chunk_frames, copy_chunks,
    inherited_v2_options, joined_preserved_length, merge_string_tables, output_v2_options,
    part_name, plan_concat, preserved_length, split_parts, PageKind, SourceFacts,
};
use fwob::schema::{Field, FieldSemantic, FieldType, Schema, TimestampUnit};
use fwob::{Error, FormatVersion, OperationOptions, Organizer};
use std::ops::Range;

fn texts(values: &[&str]) -> Vec<String> {
    values.iter().map(|value| value.to_string()).collect()
}

fn schema(semantic: FieldSemantic) -> Schema {
    Schema::new(
        "Tick",
        vec![Field::new("time", FieldType::SignedInteger, 4, 0).with_semantic(semantic)],
        0,
    )
    .unwrap()
}

const SECONDS: FieldSemantic = FieldSemantic::UnixTimestamp(TimestampUnit::Seconds);

fn source(format: FormatVersion, semantic: FieldSemantic, keys: Option<(i32, i32)>) -> SourceFacts {
    SourceFacts {
        format,
        schema: schema(semantic),
        title: "ticks".to_owned(),
        string_table: texts(&["MSFT"]),
        frame_count: if keys.is_some() { 10 } else { 0 },
        first_key: keys.map(|(first, _)| Key::I32(first)),
        last_key: keys.map(|(_, last)| Key::I32(last)),
    }
}

#[test]
fn split_keys_are_sorted() {
    assert!(check_split_keys(&[Key::I32(1), Key::I32(1), Key::I32(5)]).is_ok());
    assert!(matches!(check_split_keys(&[]), Err(Error::EmptySplitKeys)));
    assert!(matches!(
        check_split_keys(&[Key::I32(2), Key::I32(1)]),
        Err(Error::UnsortedSplitKeys)
    ));
}

#[test]
fn parts_cover_the_file() {
    assert_eq!(split_parts(&[3, 7], 10, false), [0..3, 3..7, 7..10]);
    assert_eq!(split_parts(&[0, 7, 7, 10], 10, false), [0..7, 7..10]);
    assert_eq!(
        split_parts(&[0, 7, 7, 10], 10, true),
        [0..0, 0..7, 7..7, 7..10, 10..10]
    );
    assert!(split_parts(&[0], 0, false).is_empty());
    assert_eq!(part_name("ticks", 12), "ticks.part12.fwob");
}

#[test]
fn organizer_splits_at_lower_bounds() {
    let organizer = Organizer::default();
    assert_eq!(
        organizer
            .split(&[Key::I32(4), Key::I32(8)], &[4, 8], 10)
            .unwrap(),
        [0..4, 4..8, 8..10]
    );
    assert!(matches!(
        organizer.split(&[], &[], 10),
        Err(Error::EmptySplitKeys)
    ));
    let keeping = Organizer { keep_empty_parts: true, ..Organizer::default() };
    assert_eq!(keeping.split(&[Key::I32(0)], &[0], 10).unwrap(), [0..0, 0..10]);
}

#[test]
fn string_tables_grow_along_a_common_beginning() {
    let mut table = texts(&["a", "b"]);
    merge_string_tables(&mut table, &texts(&["a"])).unwrap();
    merge_string_tables(&mut table, &texts(&["a", "b", "c"])).unwrap();
    assert_eq!(table, ["a", "b", "c"]);
    assert!(matches!(
        merge_string_tables(&mut table, &texts(&["b"])),
        Err(Error::IncompatibleStringTable)
    ));
}

#[test]
fn concat_output_follows_its_sources() {
    let v1 = || source(FormatVersion::V1, FieldSemantic::Plain, Some((0, 9)));
    let v2 = || source(FormatVersion::V2, SECONDS, Some((9, 20)));

    let plan = plan_concat(&[v1(), v1_after()], None).unwrap();
    assert_eq!(plan.format, FormatVersion::V1);
    assert!(plan.all_v1);
    assert_eq!(plan.total_frames, 20);

    let plan = plan_concat(&[v1(), v2()], None).unwrap();
    assert_eq!(plan.format, FormatVersion::V2);
    assert!(!plan.all_v1);
    assert_eq!(plan.schema.fields[0].semantic, SECONDS);
    assert_eq!(plan.title, "ticks");
    assert_eq!(plan.string_table, ["MSFT"]);

    let plan = plan_concat(&[v1(), v2()], Some(FormatVersion::V1)).unwrap();
    assert_eq!(plan.format, FormatVersion::V1);
    assert_eq!(plan.schema.fields[0].semantic, FieldSemantic::Plain);

    assert!(concat_uses_relaxed_semantics(&[v1(), v2()]));
    assert!(!concat_uses_relaxed_semantics(&[v1(), v1()]));
    assert!(!concat_uses_relaxed_semantics(&[v2(), v2()]));
}

fn v1_after() -> SourceFacts {
    source(FormatVersion::V1, FieldSemantic::Plain, Some((9, 12)))
}

#[test]
fn incompatible_sources_are_refused() {
    let v2 = |semantic, keys| source(FormatVersion::V2, semantic, keys);
    assert!(matches!(plan_concat(&[], None), Err(Error::EmptySources)));

    // Without a v1 file among them, sources must agree on semantics too.
    assert!(matches!(
        plan_concat(
            &[v2(SECONDS, Some((0, 1))), v2(FieldSemantic::Plain, Some((2, 3)))],
            None
        ),
        Err(Error::IncompatibleSchema)
    ));
    let mut other = v2(SECONDS, Some((2, 3)));
    other.title = "quotes".to_owned();
    assert!(matches!(
        plan_concat(&[v2(SECONDS, Some((0, 1))), other], None),
        Err(Error::IncompatibleTitle)
    ));
    let mut other = v2(SECONDS, Some((2, 3)));
    other.string_table = texts(&["AAPL"]);
    assert!(matches!(
        plan_concat(&[v2(SECONDS, Some((0, 1))), other], None),
        Err(Error::IncompatibleStringTable)
    ));
    assert!(matches!(
        plan_concat(
            &[v2(SECONDS, Some((0, 5))), v2(SECONDS, None), v2(SECONDS, Some((4, 6)))],
            None
        ),
        Err(Error::IncompatibleKeyOrder)
    ));
    let mut huge = v2(SECONDS, Some((5, 6)));
    huge.frame_count = u64::MAX;
    assert_eq!(
        plan_concat(&[v2(SECONDS, Some((0, 5))), huge], None)
            .unwrap_err()
            .message(),
        "invalid schema: concatenated frame count overflows u64"
    );
}

#[test]
fn organizer_forces_the_output_format() {
    let organizer = Organizer {
        output_format: Some(FormatVersion::V2),
        ..Organizer::default()
    };
    let plan = organizer
        .concat(&[source(FormatVersion::V1, FieldSemantic::Plain, Some((0, 9)))])
        .unwrap();
    assert_eq!(plan.format, FormatVersion::V2);
}

#[test]
fn string_tables_have_room() {
    assert_eq!(preserved_length(&texts(&["a"])), 1834);
    let long = "x".repeat(2000);
    assert_eq!(preserved_length(&[long, "\u{e9}".to_owned()]), 2012);
    assert_eq!(joined_preserved_length(&[10, 3000, 20], 1834), 3000);
    assert_eq!(joined_preserved_length(&[], 1834), 1834);

    let joined = plan_concat(&[source(FormatVersion::V1, FieldSemantic::Plain, None)], None);
    assert_eq!(joined.unwrap().preserved_length(&[20, 10]), 20);
    let joined = plan_concat(
        &[source(FormatVersion::V2, FieldSemantic::Plain, None)],
        Some(FormatVersion::V1),
    );
    assert_eq!(joined.unwrap().preserved_length(&[20, 10]), 1834);
}

#[test]
fn frames_are_copied_in_chunks() {
    assert_eq!(copy_chunk_frames(16), 262_144);
    assert_eq!(copy_chunk_frames(5_000_000), 1);
    assert_eq!(copy_chunks(3, 10, 3), [3..6, 6..9, 9..10]);
    assert!(copy_chunks(3, 3, 3).is_empty());
}

#[test]
fn page_options_are_inherited() {
    let page = |codec, encoding| PageKind { codec, encoding };
    let options = inherited_v2_options(
        2048,
        3,
        &[
            page(Codec::Uncompressed, Encoding::RowRawV1),
            page(Codec::Lz4, Encoding::ColumnarDeltaV1),
            page(Codec::Zstd, Encoding::RowRawV1),
        ],
    );
    assert_eq!(options.page_size, 2048);
    assert_eq!(options.codec_selection, CodecSelection::Fixed(Codec::Lz4));
    assert_eq!(
        options.encoding_selection,
        EncodingSelection::Fixed(Encoding::ColumnarDeltaV1)
    );
    // The first page decides where no page behind it is compressed.
    let options =
        inherited_v2_options(2048, 1, &[page(Codec::Uncompressed, Encoding::RowRawV1)]);
    assert_eq!(options.codec, Codec::Uncompressed);
    // A page that cannot be read ends the search.
    let options =
        inherited_v2_options(2048, 3, &[page(Codec::Uncompressed, Encoding::RowRawV1)]);
    assert_eq!(options, PageOptions { page_size: 2048, ..PageOptions::new() });
}

#[test]
fn asked_page_size_wins() {
    let inherited = PageOptions { page_size: 4096, ..PageOptions::new() };
    let asked = PageOptions { zstd_level: 9, ..PageOptions::new() };
    assert_eq!(
        output_v2_options(Some(asked), inherited, Some(1024), Some(2048)),
        PageOptions { page_size: 1024, ..asked }
    );
    assert_eq!(
        output_v2_options(None, inherited, None, Some(2048)),
        PageOptions { page_size: 2048, ..inherited }
    );
    assert_eq!(output_v2_options(None, inherited, None, None), inherited);

    let organizer = Organizer {
        operation_options: OperationOptions { v2: Some(asked), ..OperationOptions::default() },
        output_page_size: Some(8192),
        ..Organizer::default()
    };
    assert_eq!(
        organizer.v2_options(inherited, None),
        PageOptions { page_size: 8192, ..asked }
    );
}

fn part_of(
    format: FormatVersion,
    semantic: FieldSemantic,
    keys: &[i32],
    part: &Range<u64>,
) -> SourceFacts {
    let keys = &keys[part.start as usize..part.end as usize];
    let mut part = source(format, semantic, None);
    part.frame_count = keys.len() as u64;
    part.first_key = keys.first().map(|key| Key::I32(*key));
    part.last_key = keys.last().map(|key| Key::I32(*key));
    part
}

#[test]
fn parts_join_to_the_file_that_was_split() {
    let keys = [0, 1, 1, 2, 2, 2, 3, 4, 4, 9];
    for (format, semantic) in
        [(FormatVersion::V1, FieldSemantic::Plain), (FormatVersion::V2, SECONDS)]
    {
        let whole = source(format, semantic, Some((0, 9)));
        for keep_empty_parts in [false, true] {
            let organizer = Organizer { keep_empty_parts, ..Organizer::default() };
            let parts = organizer
                .split(&[Key::I32(2), Key::I32(2), Key::I32(3)], &[3, 3, 6], 10)
                .unwrap();
            assert_eq!(parts.len(), if keep_empty_parts { 4 } else { 3 });
            let mut sources: Vec<SourceFacts> =
                parts.iter().map(|part| part_of(format, semantic, &keys, part)).collect();
            assert!(sources.iter().all(SourceFacts::keys_fit));
            let plan = organizer.concat(&sources).unwrap();
            assert_eq!(plan.total_frames, 10);
            assert_eq!(plan.format, format);
            assert_eq!(plan.title, whole.title);
            assert_eq!(plan.string_table, whole.string_table);
            assert_eq!(format!("{:?}", plan.schema), format!("{:?}", whole.schema));
            sources.reverse();
            assert!(matches!(organizer.concat(&sources), Err(Error::IncompatibleKeyOrder)));
        }
    }
}

#[test]
fn parts_of_one_key_join_in_either_order() {
    let keys = [7, 7, 7, 7];
    let part = |range| part_of(FormatVersion::V2, SECONDS, &keys, &range);
    let sources = [part(2..4), part(0..2)];
    assert_eq!(Organizer::default().concat(&sources).unwrap().total_frames, 4);
}

#[test]
fn keys_must_be_those_of_the_schema() {
    let mut facts = source(FormatVersion::V2, SECONDS, Some((1, 2)));
    assert!(facts.keys_fit());
    facts.last_key = Some(Key::U32(2));
    assert!(!facts.keys_fit());
    facts.last_key = None;
    assert!(facts.keys_fit());
    facts.schema.key_field_index = 1;
    assert!(!facts.keys_fit());
}

use fwob::cli::inspect::PreviewIndex;
use fwob::cli::query::{parse_dump_target, print_found, selection_preview};
use fwob::cli::selectors::{parse_keys, parse_selectors};
use fwob::formatting::FrameFormat;
use fwob::key::{Key, KeyType};
use fwob::schema::{Field, FieldType, Schema};
use fwob::selection::{split_selector, KeyBounds, SelectorTexts};
use fwob::toml::TomlWriter;
use fwob::{FrameSelection, KeySelector};

fn words(values: &[&str]) -> Vec<String> {
    values.iter().map(|value| value.to_string()).collect()
}

fn bounds(lower: u64, upper: u64) -> KeyBounds {
    KeyBounds { lower, upper }
}

#[test]
fn parses_exact_open_closed_and_unbounded_selectors() {
    assert_eq!(
        KeySelector::parse("10", KeyType::I32).unwrap(),
        KeySelector::Exact(Key::I32(10))
    );
    assert_eq!(
        KeySelector::parse("10..", KeyType::I32).unwrap(),
        KeySelector::From(Key::I32(10))
    );
    assert_eq!(
        KeySelector::parse("..20", KeyType::I32).unwrap(),
        KeySelector::Through(Key::I32(20))
    );
    assert_eq!(
        KeySelector::parse("10..20", KeyType::I32).unwrap(),
        KeySelector::Between { first: Key::I32(10), last: Key::I32(20) }
    );
    // A bare `..` is no longer a selector: select everything by omitting selectors instead.
    assert!(KeySelector::parse("..", KeyType::I32).is_err());
    assert!(KeySelector::parse("20..10", KeyType::I32).is_err());
    assert!(KeySelector::parse("1..2..3", KeyType::I32).is_err());
}

#[test]
fn keys_outside_their_type_are_refused() {
    assert!(KeySelector::parse("128", KeyType::I8).is_err());
    assert!(KeySelector::parse("-1", KeyType::U32).is_err());
    assert!(KeySelector::parse("x", KeyType::I64).is_err());
    assert_eq!(
        KeySelector::parse("-128..127", KeyType::I8).unwrap(),
        KeySelector::Between { first: Key::I8(-128), last: Key::I8(127) }
    );
}

#[test]
fn selectors_of_other_keys_are_split_only() {
    assert!(matches!(
        split_selector("1.5..2.5").unwrap(),
        SelectorTexts::Between(first, last) if first == "1.5" && last == "2.5"
    ));
    let key = |value: f64| Key::F64(value.to_bits());
    assert!(KeySelector::between(key(1.5), key(2.5)).is_ok());
    assert!(KeySelector::between(key(2.5), key(-1.5)).is_err());
    assert!(KeySelector::between(key(0.0), key(-0.0)).is_ok());
}

#[test]
fn lists_of_selectors_and_keys() {
    assert_eq!(
        parse_selectors(&words(&["1", "3.."]), KeyType::I32).unwrap(),
        [KeySelector::Exact(Key::I32(1)), KeySelector::From(Key::I32(3))]
    );
    assert!(parse_selectors(&words(&["1", ".."]), KeyType::I32).is_err());
    assert_eq!(
        parse_keys(&words(&["1", "-2"]), KeyType::I16).unwrap(),
        [Key::I16(1), Key::I16(-2)]
    );
    assert!(parse_keys(&words(&["1", "40000"]), KeyType::I16).is_err());
}

#[test]
fn overlapping_and_adjacent_selections_become_one_range() {
    let selectors = [
        KeySelector::From(Key::I32(8)),
        KeySelector::Exact(Key::I32(2)),
        KeySelector::Between { first: Key::I32(4), last: Key::I32(5) },
        KeySelector::Exact(Key::I32(5)),
        KeySelector::Through(Key::I32(0)),
    ];
    let selection = FrameSelection::resolve(
        10,
        &selectors,
        &[bounds(8, 10), bounds(2, 3), bounds(4, 6), bounds(5, 6), bounds(0, 1)],
    );
    assert_eq!(selection.ranges(), [0..1, 2..3, 4..6, 8..10]);
    assert_eq!(selection.frame_count(), 6);
    assert_eq!(selection.first_index(), Some(0));
    assert_eq!(selection.end_index(), Some(10));
    assert_eq!(selection.index_at(3), Some(5));
    assert_eq!(selection.index_at(6), None);

    let nothing = FrameSelection::resolve(10, &selectors[1..2], &[bounds(3, 3)]);
    assert!(nothing.ranges().is_empty());
    assert_eq!(nothing.first_index(), None);
    assert_eq!(nothing.end_index(), None);

    let all = FrameSelection::resolve(10, &[], &[]);
    assert_eq!(all.ranges(), [0..10]);
}

#[test]
fn previews_skip_the_middle_of_a_selection() {
    let selection = FrameSelection::resolve(
        100,
        &[KeySelector::Exact(Key::I32(1)), KeySelector::Exact(Key::I32(2))],
        &[bounds(10, 14), bounds(50, 60)],
    );
    assert_eq!(
        selection_preview(&selection),
        [
            PreviewIndex::Frame(10),
            PreviewIndex::Frame(11),
            PreviewIndex::Frame(12),
            PreviewIndex::Ellipsis,
            PreviewIndex::Frame(57),
            PreviewIndex::Frame(58),
            PreviewIndex::Frame(59),
        ]
    );
}

#[test]
fn found_frames_are_reported() {
    let schema =
        Schema::new("T", vec![Field::new("k", FieldType::SignedInteger, 4, 0)], 0).unwrap();
    let selection =
        FrameSelection::resolve(30, &[KeySelector::Exact(Key::I32(5))], &[bounds(10, 13)]);
    let mut w = TomlWriter::new(String::new(), false);
    print_found(&mut w, "a.fwob", 1, &selection, &schema, &Vec::new());
    assert_eq!(
        w.into_inner(),
        "[find]\npath = \"a.fwob\"\nselector_count = 1\nrange_count = 1\nstart_index = 10\n\
         end_index = 13\nframe_count = 3\n"
    );
}

#[test]
fn dump_takes_one_format_among_selectors() {
    let (format, selectors) = parse_dump_target(&words(&["1", "csv", "2.."])).unwrap();
    assert_eq!(format, FrameFormat::Csv);
    assert_eq!(selectors, ["1", "2.."]);
    assert_eq!(parse_dump_target(&[]).unwrap().0, FrameFormat::Raw);
    assert_eq!(
        parse_dump_target(&words(&["csv", "hex"])).unwrap_err(),
        "dump accepts at most one output format token"
    );
}

#[test]
fn selectors_are_bounded_by_their_keys() {
    let key = Key::I32;
    assert_eq!(KeySelector::All.bound_keys(), (None, None));
    assert_eq!(KeySelector::Exact(key(5)).bound_keys(), (Some(key(5)), Some(key(5))));
    assert_eq!(KeySelector::From(key(5)).bound_keys(), (Some(key(5)), None));
    assert_eq!(KeySelector::Through(key(5)).bound_keys(), (None, Some(key(5))));
    assert_eq!(
        KeySelector::between(key(2), key(9)).unwrap().bound_keys(),
        (Some(key(2)), Some(key(9)))
    );
}

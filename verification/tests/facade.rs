use std::ops::Range;

use fwob::deletion::retained_frames;
use fwob::editor::Deletion;
use fwob::key::Key;
use fwob::organization::SourceFacts;
use fwob::schema::{ensure_schema, Field, FieldType, Schema};
use fwob::selection::KeyBounds;
use fwob::{
    Editor, FormatVersion, FrameSelection, KeySelector, OperationOptions, Organizer,
};

fn schema() -> Schema {
    Schema::new(
        "Tick",
        vec![
            Field::new("Time", FieldType::SignedInteger, 4, 0),
            Field::new("Value", FieldType::UnsignedInteger, 4, 4),
        ],
        0,
    )
    .unwrap()
}

fn frame(time: i32, value: u32) -> [u8; 8] {
    let mut bytes = [0u8; 8];
    bytes[..4].copy_from_slice(&time.to_le_bytes());
    bytes[4..].copy_from_slice(&value.to_le_bytes());
    bytes
}

fn query_key(index: usize) -> i32 {
    match index {
        0..40 => 1,
        40..180 => 2,
        180..260 => 3,
        _ => 5,
    }
}

/// The frames of a file, held in memory.
struct Frames {
    bytes: Vec<u8>,
}

impl Frames {
    fn query() -> Self {
        let bytes = (0..300).flat_map(|index| frame(query_key(index), index as u32)).collect();
        Self { bytes }
    }

    fn linear(count: i32) -> Self {
        let bytes = (0..count).flat_map(|index| frame(index, index as u32)).collect();
        Self { bytes }
    }

    fn keys(&self) -> Vec<i32> {
        self.bytes
            .chunks(8)
            .map(|frame| i32::from_le_bytes(frame[..4].try_into().unwrap()))
            .collect()
    }

    fn values(&self) -> Vec<u32> {
        self.bytes
            .chunks(8)
            .map(|frame| u32::from_le_bytes(frame[4..].try_into().unwrap()))
            .collect()
    }

    fn count(&self) -> u64 {
        self.keys().len() as u64
    }

    fn lower_bound(&self, key: i32) -> u64 {
        self.keys().iter().filter(|held| **held < key).count() as u64
    }

    fn upper_bound(&self, key: i32) -> u64 {
        self.keys().iter().filter(|held| **held <= key).count() as u64
    }

    fn equal_range(&self, key: i32) -> Range<u64> {
        self.lower_bound(key)..self.upper_bound(key)
    }

    fn editor(&self, format_version: FormatVersion) -> Editor {
        Editor {
            format_version,
            schema: schema(),
            title: "query".to_owned(),
            string_table: Vec::new(),
            frame_count: self.count(),
            operation_options: OperationOptions::default(),
        }
    }

    fn delete(&mut self, editor: &mut Editor, deletion: Deletion) -> u64 {
        self.bytes =
            retained_frames(0, self.count() as u32, 8, &self.bytes, &deletion.ranges);
        editor.deleted(&deletion);
        assert_eq!(editor.frame_count, self.count());
        deletion.removed
    }

    fn selected(&self, selector: KeySelector, lower: u64, upper: u64) -> Vec<i32> {
        let bounds = [KeyBounds { lower, upper }];
        let selection = FrameSelection::resolve(self.count(), &[selector], &bounds);
        let keys = self.keys();
        selection
            .ranges()
            .iter()
            .flat_map(|range| keys[range.start as usize..range.end as usize].to_vec())
            .collect()
    }
}

fn keys_of(parts: &[(usize, i32)]) -> Vec<i32> {
    parts.iter().flat_map(|(count, key)| vec![*key; *count]).collect()
}

#[test]
fn ordered_multi_index_deletion_is_identical_for_v1_and_v2() {
    for version in [FormatVersion::V1, FormatVersion::V2] {
        let mut indices = Frames::linear(10);
        let mut editor = indices.editor(version);
        let deletion = editor.delete_indices(&[1, 4, 8]).unwrap();
        assert_eq!(indices.delete(&mut editor, deletion), 3);
        assert_eq!(indices.values(), [0, 2, 3, 5, 6, 7, 9]);

        let mut ranges = Frames::linear(10);
        let mut editor = ranges.editor(version);
        let deletion = editor.delete_ranges(vec![1..3, 5..7]).unwrap();
        assert_eq!(ranges.delete(&mut editor, deletion), 4);
        assert_eq!(ranges.values(), [0, 3, 4, 7, 8, 9]);

        assert!(editor.delete_indices(&[2, 2]).is_err());
        assert!(editor.delete_ranges(vec![2..4, 3..5]).is_err());
    }
}

#[test]
fn mixed_key_selectors_union_identically_for_v1_and_v2() {
    let file = Frames::linear(20);
    let bounds = |first: i32, last: i32| KeyBounds {
        lower: file.lower_bound(first),
        upper: file.upper_bound(last),
    };
    let selection = FrameSelection::resolve(
        file.count(),
        &[
            KeySelector::From(Key::I32(18)),
            KeySelector::Exact(Key::I32(2)),
            KeySelector::Between { first: Key::I32(5), last: Key::I32(7) },
            KeySelector::Through(Key::I32(0)),
            KeySelector::Exact(Key::I32(6)),
        ],
        &[bounds(18, 19), bounds(2, 2), bounds(5, 7), bounds(0, 0), bounds(6, 6)],
    );
    assert_eq!(selection.ranges(), &[0..1, 2..3, 5..8, 18..20]);
    assert_eq!(selection.frame_count(), 7);
}

#[test]
fn keys_are_deleted_once_in_ascending_order() {
    for version in [FormatVersion::V1, FormatVersion::V2] {
        let mut file = Frames::query();
        let mut editor = file.editor(version);
        let ranges = |keys: &[i32]| -> Vec<Range<u64>> {
            keys.iter().map(|key| Frames::query().equal_range(*key)).collect()
        };
        assert!(editor
            .delete_keys(&[Key::I32(3), Key::I32(2)], &ranges(&[3, 2]))
            .is_err());
        assert_eq!(editor.frame_count, 300);
        let deletion = editor
            .delete_keys(
                &[Key::I32(1), Key::I32(1), Key::I32(3), Key::I32(4)],
                &ranges(&[1, 1, 3, 4]),
            )
            .unwrap();
        assert_eq!(file.delete(&mut editor, deletion), 120);
        assert_eq!(file.keys(), keys_of(&[(140, 2), (40, 5)]));
    }
}

#[test]
fn unbounded_key_operations_are_identical_for_v1_and_v2() {
    for version in [FormatVersion::V1, FormatVersion::V2] {
        let query = Frames::query();
        assert_eq!(
            query.selected(KeySelector::Through(Key::I32(2)), 0, query.upper_bound(2)),
            keys_of(&[(40, 1), (140, 2)])
        );
        assert_eq!(
            query.selected(
                KeySelector::From(Key::I32(3)),
                query.lower_bound(3),
                query.count()
            ),
            keys_of(&[(80, 3), (40, 5)])
        );

        let mut before = Frames::query();
        let mut editor = before.editor(version);
        let deletion = editor.delete_before(before.upper_bound(2)).unwrap();
        assert_eq!(before.delete(&mut editor, deletion), 180);
        assert_eq!(before.keys(), keys_of(&[(80, 3), (40, 5)]));

        let mut after = Frames::query();
        let mut editor = after.editor(version);
        let deletion = editor.delete_after(after.lower_bound(3)).unwrap();
        assert_eq!(after.delete(&mut editor, deletion), 120);
        assert_eq!(after.keys(), keys_of(&[(40, 1), (140, 2)]));
    }
}

#[test]
fn bounded_memory_editor_contract_is_identical_for_v1_and_v2() {
    for version in [FormatVersion::V1, FormatVersion::V2] {
        let mut single = Frames::query();
        let mut editor = single.editor(version);
        let deletion = editor.delete_frame(40).unwrap();
        assert_eq!(single.delete(&mut editor, deletion), 1);
        assert!(editor.delete_frame(999).is_none());
        assert_eq!(editor.frame_count, 299);
        let mut expected = (0..300).map(query_key).collect::<Vec<_>>();
        expected.remove(40);
        assert_eq!(single.keys(), expected);

        let mut indexes = Frames::query();
        let mut editor = indexes.editor(version);
        let deletion = editor.delete_frames(40, 180).unwrap();
        assert_eq!(indexes.delete(&mut editor, deletion), 140);
        let expected = (0..40).chain(180..300).map(query_key).collect::<Vec<_>>();
        assert_eq!(indexes.keys(), expected);

        let mut key = Frames::query();
        let mut editor = key.editor(version);
        let deletion = editor.delete_key(key.equal_range(2)).unwrap();
        assert_eq!(key.delete(&mut editor, deletion), 140);
        assert_eq!(key.keys(), expected);

        let mut key_range = Frames::query();
        let mut editor = key_range.editor(version);
        let (lower, upper) = (key_range.lower_bound(2), key_range.upper_bound(3));
        let deletion = editor
            .delete_key_range(Key::I32(2), Key::I32(3), lower, upper)
            .unwrap();
        assert_eq!(key_range.delete(&mut editor, deletion), 220);
        let expected = (0..40).chain(260..300).map(query_key).collect::<Vec<_>>();
        assert_eq!(key_range.keys(), expected);

        let mut all = Frames::query();
        let mut editor = all.editor(version);
        let deletion = editor.delete_all_frames().unwrap();
        assert_eq!(all.delete(&mut editor, deletion), 300);
        assert_eq!(editor.frame_count, 0);
        assert!(all.keys().is_empty());
        assert_eq!(editor.title, "query");
    }
}

#[test]
fn metadata_editor_contract_is_identical_for_v1_and_v2() {
    for version in [FormatVersion::V1, FormatVersion::V2] {
        let mut editor = Editor {
            format_version: version,
            schema: schema(),
            title: "facade".to_owned(),
            string_table: vec!["alpha".to_owned()],
            frame_count: 2,
            operation_options: OperationOptions::default(),
        };
        let change = editor.set_title("renamed").unwrap();
        editor.updated(change);
        let (index, strings) = editor.append_string("beta").unwrap();
        assert_eq!(index, 1);
        let change = editor.replace_string_table(&strings).unwrap();
        editor.updated(change);
        let change = editor
            .replace_string_table(&["one".to_owned(), "two".to_owned(), "three".to_owned()])
            .unwrap();
        editor.updated(change);
        assert_eq!(editor.title, "renamed");
        assert_eq!(editor.string_table, ["one", "two", "three"]);
        assert_eq!(editor.frame_count, 2);

        let change = editor.clear_string_table().unwrap();
        editor.updated(change);
        assert!(editor.string_table.is_empty());
        assert_eq!(editor.frame_count, 2);
    }
}

#[test]
fn split_and_concat_contract_is_identical_for_v1_and_v2() {
    for version in [FormatVersion::V1, FormatVersion::V2] {
        let source = Frames::query();
        let keys = source.keys();
        let organizer = Organizer::default();
        let parts = organizer
            .split(
                &[Key::I32(2), Key::I32(3)],
                &[source.lower_bound(2), source.lower_bound(3)],
                source.count(),
            )
            .unwrap();
        assert_eq!(parts.len(), 3);
        assert_eq!(
            parts.iter().map(|part| part.end - part.start).collect::<Vec<_>>(),
            [40, 140, 120]
        );

        let facts = |part: &Range<u64>| SourceFacts {
            format: version,
            schema: schema(),
            title: "query".to_owned(),
            string_table: Vec::new(),
            frame_count: part.end - part.start,
            first_key: Some(Key::I32(keys[part.start as usize])),
            last_key: Some(Key::I32(keys[part.end as usize - 1])),
        };
        let sources = parts.iter().map(facts).collect::<Vec<_>>();
        let joined = organizer.concat(&sources).unwrap();
        assert_eq!(joined.total_frames, 300);
        assert_eq!(joined.format, version);
        assert_eq!(
            parts
                .iter()
                .flat_map(|part| keys[part.start as usize..part.end as usize].to_vec())
                .collect::<Vec<_>>(),
            (0..300).map(query_key).collect::<Vec<_>>()
        );

        let reversed = parts.iter().rev().map(facts).collect::<Vec<_>>();
        assert!(organizer.concat(&reversed).is_err());
    }
}

#[test]
fn typed_reader_rejects_incompatible_schema() {
    let incompatible = Schema::new(
        "IncompatibleTick",
        vec![Field::new("time", FieldType::SignedInteger, 8, 0)],
        0,
    )
    .unwrap();
    assert!(ensure_schema(&schema(), &incompatible).is_err());
}

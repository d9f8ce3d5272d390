//! Editing, splitting and joining files: what is asked for, what is refused, what is printed.

use crate::cli::arguments::{DeletionPackingArg, TargetFormat};
use crate::cli::inspect;
use crate::error::{Error, Failure};
use crate::formatting::calendar;
use crate::number;
use crate::options::FormatVersion;
use crate::schema;
use crate::schema::{Field, FieldModel, FieldSemantic, Schema, SchemaModel, TimestampUnit};
use crate::text;
use crate::toml;
use crate::toml::{quote_key, TomlModel, TomlWriter};
use vstd::prelude::*;
use vstd::string::*;

verus! {

/// What an edit asks for.
pub struct EditRequest {
    pub title: Option<String>,
    pub frame_type: Option<String>,
    pub append_strings: Vec<String>,
    pub clear_strings: bool,
    pub set_semantics: Vec<String>,
}

impl EditRequest {
    /// Whether the title, the frame type or the strings change.
    pub open spec fn changes_metadata(self) -> bool {
        self.title is Some || self.frame_type is Some || self.append_strings@.len() > 0
            || self.clear_strings
    }

    /// Whether the title, the frame type or the strings change.
    pub fn edits_metadata(&self) -> (result: bool)
        ensures
            result == self.changes_metadata(),
    {
        self.title.is_some() || self.frame_type.is_some() || self.append_strings.len() > 0
            || self.clear_strings
    }

    /// Refuses an edit that asks for nothing.
    pub fn check(&self) -> (result: Result<(), String>)
        ensures
            match result {
                Ok(_) => self.changes_metadata() || self.set_semantics@.len() > 0,
                Err(message) => {
                    &&& !self.changes_metadata()
                    &&& self.set_semantics@.len() == 0
                    &&& message@
                        == "edit requires --title, --frame-type, --append-string, --clear-strings, or --set-semantic"@
                },
            },
    {
        if !self.edits_metadata() && self.set_semantics.len() == 0 {
            Err(
                "edit requires --title, --frame-type, --append-string, --clear-strings, or --set-semantic".to_owned(),
            )
        } else {
            Ok(())
        }
    }

    /// The strings of the edited file, where they change: those it has, unless they are cleared,
    /// and those that are appended.
    pub fn strings(&self, current: &[String]) -> (result: Option<Vec<String>>)
        ensures
            match result {
                None => !self.clear_strings && self.append_strings@.len() == 0,
                Some(strings) => {
                    &&& self.clear_strings || self.append_strings@.len() > 0
                    &&& strings@ == (if self.clear_strings {
                        Seq::empty()
                    } else {
                        current@
                    }) + self.append_strings@
                },
            },
    {
        if !self.clear_strings && self.append_strings.len() == 0 {
            return None;
        }
        let mut strings: Vec<String> = if self.clear_strings {
            Vec::new()
        } else {
            text::texts_from(current, 0)
        };
        let ghost head = strings@;
        assert(current@.skip(0) == current@);
        let mut i: usize = 0;
        while i < self.append_strings.len()
            invariant
                i <= self.append_strings@.len(),
                strings@ == head + self.append_strings@.take(i as int),
            decreases self.append_strings@.len() - i,
        {
            strings.push(self.append_strings[i].clone());
            i = i + 1;
            assert(strings@ == head + self.append_strings@.take(i as int));
        }
        assert(self.append_strings@.take(i as int) == self.append_strings@);
        Some(strings)
    }
}

/// The files and directories to edit: the current directory where none is named.
pub fn edit_targets(values: &[String]) -> (result: Vec<String>)
    ensures
        text::views(result@) == if values@.len() == 0 {
            seq!["."@]
        } else {
            text::views(values@)
        },
{
    if values.len() == 0 {
        let mut result: Vec<String> = Vec::new();
        result.push(".".to_owned());
        assert(text::views(result@) == seq!["."@]);
        result
    } else {
        assert(values@.skip(0) == values@);
        text::texts_from(values, 0)
    }
}

/// Refuses an edit where there is no file to edit.
pub fn check_edit_files(count: usize) -> (result: Result<(), String>)
    ensures
        match result {
            Ok(_) => count > 0,
            Err(message) => count == 0 && message@ == "no .fwob files found to edit"@,
        },
{
    if count == 0 {
        Err("no .fwob files found to edit".to_owned())
    } else {
        Ok(())
    }
}

/// How an edit of several files ended: badly where one of them could not be edited.
pub fn edit_outcome(failures: usize, files: usize) -> (result: Result<(), String>)
    ensures
        match result {
            Ok(_) => failures == 0,
            Err(message) => failures > 0 && message@ == number::decimal(failures as nat) + " of "@
                + number::decimal(files as nat) + " file(s) could not be edited"@,
        },
{
    if failures == 0 {
        return Ok(());
    }
    let mut message: String = number::decimal_string(failures as u128);
    message.append(" of ");
    number::push_decimal(&mut message, files as u128);
    message.append(" file(s) could not be edited");
    Err(message)
}

/// What a word says that numbers stand for.
pub open spec fn semantic_of(word: Seq<char>) -> Option<FieldSemantic> {
    if word == "none"@ {
        Some(FieldSemantic::Plain)
    } else if word == "unix-seconds"@ {
        Some(FieldSemantic::UnixTimestamp(TimestampUnit::Seconds))
    } else if word == "unix-milliseconds"@ {
        Some(FieldSemantic::UnixTimestamp(TimestampUnit::Milliseconds))
    } else if word == "unix-microseconds"@ {
        Some(FieldSemantic::UnixTimestamp(TimestampUnit::Microseconds))
    } else if word == "unix-nanoseconds"@ {
        Some(FieldSemantic::UnixTimestamp(TimestampUnit::Nanoseconds))
    } else if word.len() == 7 && word.take(6) == "fixed-"@ && '0' <= word[6] <= '8' {
        Some(FieldSemantic::FixedPoint((word[6] as u8 - 48) as u8))
    } else if word.len() == 9 && word.take(8) == "percent-"@ && '0' <= word[8] <= '8' {
        Some(FieldSemantic::Percentage((word[8] as u8 - 48) as u8))
    } else {
        None
    }
}

/// What a word says that numbers stand for.
pub fn parse_semantic(word: &str) -> (result: Option<FieldSemantic>)
    ensures
        result == semantic_of(word@),
{
    if text::same(word, "none") {
        return Some(FieldSemantic::Plain);
    }
    if text::same(word, "unix-seconds") {
        return Some(FieldSemantic::UnixTimestamp(TimestampUnit::Seconds));
    }
    if text::same(word, "unix-milliseconds") {
        return Some(FieldSemantic::UnixTimestamp(TimestampUnit::Milliseconds));
    }
    if text::same(word, "unix-microseconds") {
        return Some(FieldSemantic::UnixTimestamp(TimestampUnit::Microseconds));
    }
    if text::same(word, "unix-nanoseconds") {
        return Some(FieldSemantic::UnixTimestamp(TimestampUnit::Nanoseconds));
    }
    let chars: Vec<char> = text::chars_of(word);
    let length: usize = chars.len();
    if length != 7 && length != 9 {
        return None;
    }
    let last: char = chars[length - 1];
    let mut head: String = String::new();
    text::push_chars(&mut head, &chars, 0, length - 1);
    assert(head@ == word@.take(length - 1));
    if !('0' <= last && last <= '8') {
        return None;
    }
    let points: u8 = last as u8 - 48;
    if length == 7 && text::same(head.as_str(), "fixed-") {
        Some(FieldSemantic::FixedPoint(points))
    } else if length == 9 && text::same(head.as_str(), "percent-") {
        Some(FieldSemantic::Percentage(points))
    } else {
        None
    }
}

/// The name of what numbers stand for says just that, up to eight decimal places.
pub proof fn semantic_reads_back(semantic: FieldSemantic)
    requires
        semantic.decimals() <= 8,
    ensures
        semantic_of(inspect::semantic_name(semantic)) == Some(semantic),
{
    reveal_strlit("none");
    reveal_strlit("unix-seconds");
    reveal_strlit("unix-milliseconds");
    reveal_strlit("unix-microseconds");
    reveal_strlit("unix-nanoseconds");
    reveal_strlit("fixed-");
    reveal_strlit("percent-");
    assert("none"@.len() == 4);
    assert("unix-seconds"@.len() == 12);
    assert("unix-milliseconds"@.len() == 17);
    assert("unix-microseconds"@.len() == 17);
    assert("unix-nanoseconds"@.len() == 16);
    assert("unix-milliseconds"@[6] == 'i');
    assert("unix-microseconds"@[6] == 'i');
    assert("unix-milliseconds"@[7] == 'l');
    assert("unix-microseconds"@[7] == 'c');
    let word = inspect::semantic_name(semantic);
    match semantic {
        FieldSemantic::FixedPoint(points) => {
            assert(word.take(6) == "fixed-"@);
            assert(word[6] == number::digit_char(points as nat));
        },
        FieldSemantic::Percentage(points) => {
            assert(word.take(8) == "percent-"@);
            assert(word[8] == number::digit_char(points as nat));
        },
        _ => {},
    }
}

/// A field by its name, and what its numbers stand for from now on.
#[derive(Debug)]
pub struct SemanticUpdate {
    pub name: String,
    pub semantic: FieldSemantic,
}

/// A field by its name as characters, and what its numbers stand for from now on.
pub struct UpdateModel {
    pub name: Seq<char>,
    pub semantic: FieldSemantic,
}

impl View for SemanticUpdate {
    type V = UpdateModel;

    open spec fn view(&self) -> UpdateModel {
        UpdateModel { name: self.name@, semantic: self.semantic }
    }
}

/// The models of a list of updates.
pub open spec fn update_models(updates: Seq<SemanticUpdate>) -> Seq<UpdateModel> {
    updates.map_values(|update: SemanticUpdate| update@)
}

/// The place of the first field of a name; the number of fields where there is none.
pub open spec fn first_named(fields: Seq<FieldModel>, name: Seq<char>) -> int
    decreases fields.len(),
{
    if fields.len() == 0 || fields[0].name == name {
        0
    } else {
        1 + first_named(fields.skip(1), name)
    }
}

/// What is said of a word that says nothing that numbers could stand for.
pub open spec fn unknown_semantic(word: Seq<char>) -> Seq<char> {
    "unknown semantic '"@ + word
        + "'; expected none, unix-seconds, unix-milliseconds, unix-microseconds, unix-nanoseconds, fixed-0..fixed-8, or percent-0..percent-8"@
}

/// The update that `NAME=VALUE` asks for, or why it is refused.
pub open spec fn update_of(value: Seq<char>, fields: Seq<FieldModel>) -> Result<
    UpdateModel,
    Seq<char>,
> {
    let sign = text::first_of(value, '=', '=');
    let name = value.take(sign);
    let word = value.skip(sign + 1);
    if sign == value.len() {
        Err("--set-semantic expects NAME=VALUE, got '"@ + value + "'"@)
    } else if first_named(fields, name) == fields.len() {
        Err("field '"@ + name + "' not found in schema"@)
    } else {
        match semantic_of(word) {
            Some(semantic) => Ok(UpdateModel { name, semantic }),
            None => Err(unknown_semantic(word)),
        }
    }
}

/// The updates that a command asks for, or why the first one that is refused is refused.
pub open spec fn updates_of(values: Seq<Seq<char>>, fields: Seq<FieldModel>) -> Result<
    Seq<UpdateModel>,
    Seq<char>,
>
    decreases values.len(),
{
    if values.len() == 0 {
        Ok(Seq::empty())
    } else {
        match updates_of(values.drop_last(), fields) {
            Err(message) => Err(message),
            Ok(updates) => match update_of(values.last(), fields) {
                Err(message) => Err(message),
                Ok(update) => Ok(updates.push(update)),
            },
        }
    }
}

proof fn update_error_stays(values: Seq<Seq<char>>, fields: Seq<FieldModel>, count: int)
    requires
        0 <= count <= values.len(),
        updates_of(values.take(count), fields) is Err,
    ensures
        updates_of(values, fields) == updates_of(values.take(count), fields),
    decreases values.len() - count,
{
    if count < values.len() {
        assert(values.take(count + 1).drop_last() == values.take(count));
        update_error_stays(values, fields, count + 1);
    } else {
        assert(values.take(count) == values);
    }
}

fn find_field(fields: &Vec<Field>, name: &str) -> (result: usize)
    ensures
        result == first_named(schema::field_models(fields@), name@),
        result <= fields@.len(),
{
    let ghost models = schema::field_models(fields@);
    let mut i: usize = 0;
    assert(models.skip(0) == models);
    while i < fields.len() && !text::same(fields[i].name.as_str(), name)
        invariant
            i <= fields@.len(),
            models == schema::field_models(fields@),
            first_named(models, name@) == i + first_named(models.skip(i as int), name@),
        decreases fields@.len() - i,
    {
        assert(models.skip(i as int)[0] == fields@[i as int]@);
        assert(models.skip(i as int).skip(1) == models.skip(i as int + 1));
        i = i + 1;
    }
    if i < fields.len() {
        assert(models.skip(i as int)[0] == fields@[i as int]@);
    }
    i
}

/// The update that `NAME=VALUE` asks for, or why it is refused.
pub fn parse_semantic_update(value: &str, schema: &Schema) -> (result: Result<
    SemanticUpdate,
    String,
>)
    ensures
        match result {
            Ok(update) => update_of(value@, schema@.fields) == Ok::<UpdateModel, Seq<char>>(
                update@,
            ),
            Err(message) => update_of(value@, schema@.fields) == Err::<UpdateModel, Seq<char>>(
                message@,
            ),
        },
{
    let chars: Vec<char> = text::chars_of(value);
    let total: usize = chars.len();
    let sign: usize = text::position_of(&chars, total, '=', '=');
    assert(chars@.take(total as int) == value@);
    if sign == total {
        return Err(text::concat3("--set-semantic expects NAME=VALUE, got '", value, "'"));
    }
    let mut name: String = String::new();
    text::push_chars(&mut name, &chars, 0, sign);
    let mut word: String = String::new();
    text::push_chars(&mut word, &chars, sign + 1, total);
    assert(name@ == value@.take(sign as int));
    assert(word@ == value@.skip(sign + 1));
    if find_field(&schema.fields, name.as_str()) == schema.fields.len() {
        return Err(text::concat3("field '", name.as_str(), "' not found in schema"));
    }
    match parse_semantic(word.as_str()) {
        Some(semantic) => Ok(SemanticUpdate { name, semantic }),
        None => Err(
            text::concat3(
                "unknown semantic '",
                word.as_str(),
                "'; expected none, unix-seconds, unix-milliseconds, unix-microseconds, unix-nanoseconds, fixed-0..fixed-8, or percent-0..percent-8",
            ),
        ),
    }
}

/// The updates that a command asks for, or why the first one that is refused is refused.
pub fn parse_semantic_updates(values: &[String], schema: &Schema) -> (result: Result<
    Vec<SemanticUpdate>,
    String,
>)
    ensures
        match result {
            Ok(updates) => updates_of(text::views(values@), schema@.fields) == Ok::<
                Seq<UpdateModel>,
                Seq<char>,
            >(update_models(updates@)),
            Err(message) => updates_of(text::views(values@), schema@.fields) == Err::<
                Seq<UpdateModel>,
                Seq<char>,
            >(message@),
        },
{
    let ghost words = text::views(values@);
    let ghost fields = schema@.fields;
    let mut updates: Vec<SemanticUpdate> = Vec::new();
    let mut i: usize = 0;
    assert(words.take(0) == Seq::<Seq<char>>::empty());
    assert(update_models(updates@) == Seq::<UpdateModel>::empty());
    while i < values.len()
        invariant
            i <= values@.len(),
            words == text::views(values@),
            fields == schema@.fields,
            updates_of(words.take(i as int), fields) == Ok::<Seq<UpdateModel>, Seq<char>>(
                update_models(updates@),
            ),
        decreases values@.len() - i,
    {
        let ghost before = update_models(updates@);
        assert(words.take(i as int + 1).drop_last() == words.take(i as int));
        assert(words.take(i as int + 1).last() == values@[i as int]@);
        match parse_semantic_update(values[i].as_str(), schema) {
            Ok(update) => {
                updates.push(update);
                assert(update_models(updates@) == before.push(update@));
            },
            Err(message) => {
                proof {
                    update_error_stays(words, fields, i as int + 1);
                }
                return Err(message);
            },
        }
        i = i + 1;
    }
    assert(words.take(i as int) == words);
    Ok(updates)
}

/// Fields with one update made: the first field of the name changes, and nothing else.
pub open spec fn with_update(fields: Seq<FieldModel>, update: UpdateModel) -> Seq<FieldModel> {
    let place = first_named(fields, update.name);
    if 0 <= place < fields.len() {
        fields.update(place, FieldModel { semantic: update.semantic, ..fields[place] })
    } else {
        fields
    }
}

/// Fields with updates made one behind the other.
pub open spec fn with_updates(fields: Seq<FieldModel>, updates: Seq<UpdateModel>) -> Seq<FieldModel>
    decreases updates.len(),
{
    if updates.len() == 0 {
        fields
    } else {
        with_update(with_updates(fields, updates.drop_last()), updates.last())
    }
}

/// The fields of a schema with updates made, held to what a schema may be.
pub fn validate_semantic_updates(schema: &Schema, updates: &[SemanticUpdate]) -> (result: Result<
    Schema,
    Error,
>)
    requires
        forall|k: int|
            0 <= k < updates@.len() ==> first_named(schema@.fields, (#[trigger] updates@[k]).name@)
                < schema@.fields.len(),
    ensures
        ({
            let fields = with_updates(schema@.fields, update_models(updates@));
            let refusal = schema::schema_refusal(fields, schema.key_field_index as int);
            match result {
                Ok(changed) => refusal is None && changed@.fields == fields
                    && changed@.frame_type == schema@.frame_type && changed@.key_field_index
                    == schema.key_field_index,
                Err(error) => error@ is InvalidSchema && refusal == Some(error@->InvalidSchema_0),
            }
        }),
{
    let ghost models = update_models(updates@);
    let mut fields: Vec<Field> = schema::copy_fields(&schema.fields);
    let mut i: usize = 0;
    assert(models.take(0) == Seq::<UpdateModel>::empty());
    while i < updates.len()
        invariant
            i <= updates@.len(),
            models == update_models(updates@),
            schema::field_models(fields@) == with_updates(schema@.fields, models.take(i as int)),
        decreases updates@.len() - i,
    {
        let ghost before = schema::field_models(fields@);
        assert(models.take(i as int + 1).drop_last() == models.take(i as int));
        assert(models.take(i as int + 1).last() == updates@[i as int]@);
        let place: usize = find_field(&fields, updates[i].name.as_str());
        if place < fields.len() {
            let changed: Field = fields[place].copy().with_semantic(updates[i].semantic);
            assert(changed@ == (FieldModel {
                semantic: updates@[i as int].semantic,
                ..before[place as int]
            }));
            fields.set(place, changed);
            assert(schema::field_models(fields@) == before.update(place as int, changed@));
        }
        i = i + 1;
    }
    assert(models.take(i as int) == models);
    Schema::new(schema.frame_type.as_str(), fields, schema.key_field_index)
}

/// Updates change what numbers stand for, and nothing else: the schema stays compatible.
pub proof fn updates_keep_the_layout(fields: Seq<FieldModel>, updates: Seq<UpdateModel>, index: int)
    requires
        0 <= index < fields.len(),
    ensures
        with_updates(fields, updates).len() == fields.len(),
        with_updates(fields, updates)[index].same_layout(fields[index]),
    decreases updates.len(),
{
    if updates.len() > 0 {
        updates_keep_the_layout(fields, updates.drop_last(), index);
    }
}

proof fn first_named_is_a_place(fields: Seq<FieldModel>, name: Seq<char>)
    ensures
        0 <= first_named(fields, name) <= fields.len(),
    decreases fields.len(),
{
    if fields.len() > 0 {
        first_named_is_a_place(fields.skip(1), name);
    }
}

proof fn updates_name_fields(values: Seq<Seq<char>>, fields: Seq<FieldModel>)
    requires
        updates_of(values, fields) is Ok,
    ensures
        forall|k: int|
            0 <= k < updates_of(values, fields)->Ok_0.len() ==> first_named(
                fields,
                (#[trigger] updates_of(values, fields)->Ok_0[k]).name,
            ) < fields.len(),
    decreases values.len(),
{
    if values.len() > 0 {
        updates_name_fields(values.drop_last(), fields);
        let before = updates_of(values.drop_last(), fields)->Ok_0;
        let update = update_of(values.last(), fields)->Ok_0;
        first_named_is_a_place(fields, update.name);
        assert(updates_of(values, fields)->Ok_0 == before.push(update));
    }
}

/// The updates that an edit makes to the fields of a file, or why it makes none of them. A v1 file
/// cannot say what its numbers stand for.
pub open spec fn semantic_edit(
    format: FormatVersion,
    schema: SchemaModel,
    values: Seq<Seq<char>>,
) -> Result<Seq<UpdateModel>, Seq<char>> {
    if values.len() == 0 {
        Ok(Seq::empty())
    } else if format == FormatVersion::V1 {
        Err("v1 files cannot store field semantics; convert to v2 first"@)
    } else {
        match updates_of(values, schema.fields) {
            Err(message) => Err(message),
            Ok(updates) => match schema::schema_refusal(
                with_updates(schema.fields, updates),
                schema.key_field_index as int,
            ) {
                Some(reason) => Err(Failure::InvalidSchema(reason).words()),
                None => Ok(updates),
            },
        }
    }
}

/// The updates that an edit makes to the fields of a file: all that were asked for, or none.
pub fn plan_semantic_edit(format: FormatVersion, schema: &Schema, values: &[String]) -> (result:
    Result<Vec<SemanticUpdate>, String>)
    ensures
        match result {
            Ok(updates) => semantic_edit(format, schema@, text::views(values@)) == Ok::<
                Seq<UpdateModel>,
                Seq<char>,
            >(update_models(updates@)),
            Err(message) => semantic_edit(format, schema@, text::views(values@)) == Err::<
                Seq<UpdateModel>,
                Seq<char>,
            >(message@),
        },
{
    if values.len() == 0 {
        let updates: Vec<SemanticUpdate> = Vec::new();
        assert(update_models(updates@) == Seq::<UpdateModel>::empty());
        return Ok(updates);
    }
    if format == FormatVersion::V1 {
        return Err("v1 files cannot store field semantics; convert to v2 first".to_owned());
    }
    let updates: Vec<SemanticUpdate> = match parse_semantic_updates(values, schema) {
        Ok(updates) => updates,
        Err(message) => {
            return Err(message);
        },
    };
    proof {
        updates_name_fields(text::views(values@), schema@.fields);
        assert forall|k: int| 0 <= k < updates@.len() implies first_named(
            schema@.fields,
            (#[trigger] updates@[k]).name@,
        ) < schema@.fields.len() by {
            assert(update_models(updates@)[k] == updates@[k]@);
        }
    }
    match validate_semantic_updates(schema, updates.as_slice()) {
        Ok(_) => Ok(updates),
        Err(error) => Err(error.message()),
    }
}

/// The lines on what the numbers of fields stand for.
pub open spec fn semantics_doc(w: TomlModel, fields: Seq<FieldModel>) -> TomlModel
    decreases fields.len(),
{
    if fields.len() == 0 {
        w
    } else {
        let w = semantics_doc(w, fields.drop_last());
        let field = fields.last();
        if field.semantic != FieldSemantic::Plain {
            w.kv_str("semantic."@ + toml::key_word(field.name), inspect::semantic_name(field.semantic))
        } else {
            w
        }
    }
}

/// What is printed of an edited file.
pub open spec fn edit_doc(
    w: TomlModel,
    path: Seq<char>,
    title: Seq<char>,
    schema: SchemaModel,
    string_count: usize,
) -> TomlModel {
    semantics_doc(
        w.array_section("edit"@).kv_str("path"@, path).kv_str("title"@, title).kv_str(
            "frame_type"@,
            schema.frame_type,
        ).kv_num("string_count"@, string_count as int),
        schema.fields,
    )
}

/// Writes what is printed of an edited file.
pub fn print_edited(
    w: &mut TomlWriter,
    path: &str,
    title: &str,
    schema: &Schema,
    string_count: usize,
)
    ensures
        final(w)@ == edit_doc(old(w)@, path@, title@, schema@, string_count),
{
    let ghost fields = schema@.fields;
    w.array_section("edit");
    w.kv_str("path", path);
    w.kv_str("title", title);
    w.kv_str("frame_type", schema.frame_type.as_str());
    w.kv_num("string_count", string_count);
    let ghost head = w@;
    let mut i: usize = 0;
    assert(fields.take(0) == Seq::<FieldModel>::empty());
    while i < schema.fields.len()
        invariant
            i <= schema.fields@.len(),
            fields == schema@.fields,
            w@ == semantics_doc(head, fields.take(i as int)),
        decreases schema.fields@.len() - i,
    {
        assert(fields.take(i as int + 1).drop_last() == fields.take(i as int));
        let field: &Field = &schema.fields[i];
        assert(fields[i as int] == field@);
        if field.semantic != FieldSemantic::Plain {
            let mut key: String = "semantic.".to_owned();
            let word: String = quote_key(field.name.as_str());
            key.append(word.as_str());
            let name: String = inspect::field_semantic_name(field.semantic);
            w.kv_str(key.as_str(), name.as_str());
        }
        i = i + 1;
    }
    assert(fields.take(i as int) == fields);
}

/// The lines that a deletion adds to its section.
pub open spec fn deletion_doc(
    w: TomlModel,
    selector_count: usize,
    range_count: usize,
    removed: u64,
    packing: DeletionPackingArg,
    compress_partial_page: bool,
) -> TomlModel {
    w.kv_num("selector_count"@, selector_count as int).kv_num(
        "range_count"@,
        range_count as int,
    ).kv_num("deleted_frames"@, removed as int).kv_str("deletion_packing"@, packing.word()).kv_bool(
        "compress_partial_page"@,
        compress_partial_page || packing == DeletionPackingArg::LocalRepack,
    )
}

/// Writes the lines that a deletion adds to its section. Pages that are packed anew where they
/// lie are always compressed.
pub fn print_deletion(
    w: &mut TomlWriter,
    selector_count: usize,
    range_count: usize,
    removed: u64,
    packing: DeletionPackingArg,
    compress_partial_page: bool,
)
    ensures
        final(w)@ == deletion_doc(
            old(w)@,
            selector_count,
            range_count,
            removed,
            packing,
            compress_partial_page,
        ),
{
    w.kv_num("selector_count", selector_count);
    w.kv_num("range_count", range_count);
    w.kv_num("deleted_frames", removed);
    w.kv_str("deletion_packing", packing.as_str());
    w.kv_bool(
        "compress_partial_page",
        compress_partial_page || packing == DeletionPackingArg::LocalRepack,
    );
}

/// The lines that name parts.
pub open spec fn part_names_doc(w: TomlModel, parts: Seq<Seq<char>>) -> TomlModel
    decreases parts.len(),
{
    if parts.len() == 0 {
        w
    } else {
        part_names_doc(w, parts.drop_last()).kv_str(
            "part_"@ + number::decimal((parts.len() - 1) as nat),
            parts.last(),
        )
    }
}

/// Writes the lines that splitting a file adds to its section.
pub fn print_parts(w: &mut TomlWriter, parts: &[String])
    ensures
        final(w)@ == part_names_doc(
            old(w)@.kv_num("parts"@, parts@.len() as int),
            text::views(parts@),
        ),
{
    let ghost texts = text::views(parts@);
    w.kv_num("parts", parts.len());
    let ghost head = w@;
    let mut i: usize = 0;
    assert(texts.take(0) == Seq::<Seq<char>>::empty());
    while i < parts.len()
        invariant
            i <= parts@.len(),
            texts == text::views(parts@),
            w@ == part_names_doc(head, texts.take(i as int)),
        decreases parts@.len() - i,
    {
        assert(texts.take(i as int + 1).drop_last() == texts.take(i as int));
        let mut key: String = "part_".to_owned();
        number::push_decimal(&mut key, i as u128);
        w.kv_str(key.as_str(), parts[i].as_str());
        i = i + 1;
    }
    assert(texts.take(i as int) == texts);
}

/// What is said where v1 files, which cannot say what numbers stand for, are joined with v2 files
/// that do.
pub fn relaxed_semantics_warning(format: TargetFormat) -> (result: &'static str)
    ensures
        result@ == match format {
            TargetFormat::V1 => "warning: mixed v1/v2 concat ignored missing v1 field semantics; v2 semantics were dropped for v1 output"@,
            TargetFormat::V2 => "warning: mixed v1/v2 concat ignored missing v1 field semantics; v2 semantics were preserved in v2 output"@,
        },
{
    match format {
        TargetFormat::V1 => {
            "warning: mixed v1/v2 concat ignored missing v1 field semantics; v2 semantics were dropped for v1 output"
        },
        TargetFormat::V2 => {
            "warning: mixed v1/v2 concat ignored missing v1 field semantics; v2 semantics were preserved in v2 output"
        },
    }
}

/// The word for a timestamp says what a second is divided into: `unix-seconds` into nothing, and
/// with `milli`, `micro` and `nano` in front of the seconds into thousands more each.
pub proof fn timestamp_words_say_the_unit(unit: TimestampUnit)
    ensures
        semantic_of("unix-seconds"@) == Some(FieldSemantic::UnixTimestamp(unit)) <==>
            calendar::steps_per_second(unit) == 1,
        semantic_of("unix-milliseconds"@) == Some(FieldSemantic::UnixTimestamp(unit)) <==>
            calendar::steps_per_second(unit) == 1_000,
        semantic_of("unix-microseconds"@) == Some(FieldSemantic::UnixTimestamp(unit)) <==>
            calendar::steps_per_second(unit) == 1_000_000,
        semantic_of("unix-nanoseconds"@) == Some(FieldSemantic::UnixTimestamp(unit)) <==>
            calendar::steps_per_second(unit) == 1_000_000_000,
{
    semantic_reads_back(FieldSemantic::UnixTimestamp(TimestampUnit::Seconds));
    semantic_reads_back(FieldSemantic::UnixTimestamp(TimestampUnit::Milliseconds));
    semantic_reads_back(FieldSemantic::UnixTimestamp(TimestampUnit::Microseconds));
    semantic_reads_back(FieldSemantic::UnixTimestamp(TimestampUnit::Nanoseconds));
}

/// A word that says what numbers stand for is the name of just that, and never of more than eight
/// decimal places: no two words say the same.
pub proof fn semantic_words_are_names(word: Seq<char>)
    ensures
        semantic_of(word) matches Some(semantic) ==> inspect::semantic_name(semantic) == word
            && semantic.decimals() <= 8,
{
    reveal_strlit("fixed-");
    reveal_strlit("percent-");
    match semantic_of(word) {
        Some(FieldSemantic::FixedPoint(points)) => {
            assert(word == "fixed-"@ + seq![word[6]]) by {
                assert(word == word.take(6) + seq![word[6]]);
            }
            one_digit(word[6], points as nat);
        },
        Some(FieldSemantic::Percentage(points)) => {
            assert(word == "percent-"@ + seq![word[8]]) by {
                assert(word == word.take(8) + seq![word[8]]);
            }
            one_digit(word[8], points as nat);
        },
        _ => {},
    }
}

proof fn one_digit(ch: char, value: nat)
    requires
        '0' <= ch <= '8',
        value == ch as u8 - 48,
    ensures
        number::decimal(value) == seq![ch],
{
    assert(number::decimal(value) == seq![number::digit_char(value)]);
}

/// The first field of a name has it, and none before it does; there is none exactly where no field
/// has the name.
pub proof fn first_named_is_the_first(fields: Seq<FieldModel>, name: Seq<char>)
    ensures
        0 <= first_named(fields, name) <= fields.len(),
        first_named(fields, name) < fields.len() ==> fields[first_named(fields, name)].name == name,
        forall|i: int|
            0 <= i < first_named(fields, name) ==> (#[trigger] fields[i]).name != name,
    decreases fields.len(),
{
    if fields.len() > 0 {
        let rest = fields.skip(1);
        first_named_is_the_first(rest, name);
        assert forall|i: int| 0 <= i < first_named(fields, name) implies (
        #[trigger] fields[i]).name != name by {
            if i > 0 {
                assert(rest[i - 1] == fields[i]);
            }
        }
    }
}

/// An update that is spelled out as a name and a word is made to that field, with what the word says.
pub proof fn spelled_updates_read_back(
    name: Seq<char>,
    semantic: FieldSemantic,
    fields: Seq<FieldModel>,
    index: int,
)
    requires
        !name.contains('='),
        semantic.decimals() <= 8,
        0 <= index < fields.len(),
        fields[index].name == name,
    ensures
        update_of(name + seq!['='] + inspect::semantic_name(semantic), fields) == Ok::<
            UpdateModel,
            Seq<char>,
        >((UpdateModel { name, semantic })),
{
    let word = inspect::semantic_name(semantic);
    let value = name + seq!['='] + word;
    text::parts_are_pieces(name, word, '=');
    semantic_reads_back(semantic);
    first_named_is_the_first(fields, name);
    assert(value.take(name.len() as int) == name);
    assert(value.skip(name.len() as int + 1) == word);
}

/// One update changes the first field of its name to what it says, and no other field.
pub proof fn one_update_changes_one_field(
    fields: Seq<FieldModel>,
    update: UpdateModel,
    index: int,
)
    requires
        0 <= index < fields.len(),
    ensures
        with_update(fields, update).len() == fields.len(),
        with_update(fields, update)[index].same_layout(fields[index]),
        with_update(fields, update)[index].semantic == if fields[index].name == update.name && (
        forall|i: int| 0 <= i < index ==> (#[trigger] fields[i]).name != update.name) {
            update.semantic
        } else {
            fields[index].semantic
        },
{
    first_named_is_the_first(fields, update.name);
}

/// The last update of a field counts, whatever the updates before it said.
pub proof fn the_last_update_counts(
    fields: Seq<FieldModel>,
    updates: Seq<UpdateModel>,
    index: int,
)
    requires
        0 <= index < fields.len(),
        updates.len() > 0,
        fields[index].name == updates.last().name,
        forall|i: int| 0 <= i < index ==> (#[trigger] fields[i]).name != updates.last().name,
    ensures
        with_updates(fields, updates)[index].semantic == updates.last().semantic,
{
    let before = with_updates(fields, updates.drop_last());
    updates_keep_the_layout(fields, updates.drop_last(), index);
    assert forall|i: int| 0 <= i < index implies (#[trigger] before[i]).name
        != updates.last().name by {
        updates_keep_the_layout(fields, updates.drop_last(), i);
        assert(fields[i].name != updates.last().name);
    }
    one_update_changes_one_field(before, updates.last(), index);
}

/// A v1 file takes no updates, and an edit that is made makes all that were asked for, in their
/// order.
pub proof fn edits_are_made_whole(
    format: FormatVersion,
    schema: SchemaModel,
    values: Seq<Seq<char>>,
    index: int,
)
    requires
        semantic_edit(format, schema, values) is Ok,
        0 <= index < values.len(),
    ensures
        format == FormatVersion::V2,
        semantic_edit(format, schema, values)->Ok_0.len() == values.len(),
        update_of(values[index], schema.fields) == Ok::<UpdateModel, Seq<char>>(
            semantic_edit(format, schema, values)->Ok_0[index],
        ),
        schema::schema_refusal(
            with_updates(schema.fields, semantic_edit(format, schema, values)->Ok_0),
            schema.key_field_index as int,
        ) is None,
{
    updates_come_in_order(values, schema.fields, index);
}

proof fn updates_come_in_order(values: Seq<Seq<char>>, fields: Seq<FieldModel>, index: int)
    requires
        updates_of(values, fields) is Ok,
        0 <= index < values.len(),
    ensures
        updates_of(values, fields)->Ok_0.len() == values.len(),
        update_of(values[index], fields) == Ok::<UpdateModel, Seq<char>>(
            updates_of(values, fields)->Ok_0[index],
        ),
    decreases values.len(),
{
    let shorter = values.drop_last();
    let before = updates_of(shorter, fields)->Ok_0;
    if values.len() > 1 {
        updates_come_in_order(
            shorter,
            fields,
            if index < shorter.len() {
                index
            } else {
                0
            },
        );
    } else {
        assert(before == Seq::<UpdateModel>::empty());
    }
    if index < shorter.len() {
        assert(updates_of(values, fields)->Ok_0[index] == before[index]);
    }
}

/// A deletion is printed with how many selectors, ranges and frames it took, and how pages were packed:
/// pages that are packed anew where they lie are compressed in any case.
pub proof fn deletions_are_said(
    w: TomlModel,
    selector_count: usize,
    range_count: usize,
    removed: u64,
    packing: DeletionPackingArg,
    compress_partial_page: bool,
)
    requires
        !w.color,
    ensures
        ({
            let said = deletion_doc(
                w,
                selector_count,
                range_count,
                removed,
                packing,
                compress_partial_page,
            );
            &&& said.color == w.color
            &&& said.says_number("selector_count"@, selector_count as int)
            &&& said.says_number("range_count"@, range_count as int)
            &&& said.says_number("deleted_frames"@, removed as int)
            &&& said.says_text("deletion_packing"@, packing.word())
            &&& said.says_truth(
                "compress_partial_page"@,
                compress_partial_page || packing == DeletionPackingArg::LocalRepack,
            )
        }),
{
    toml::values_are_said(w, "selector_count"@, number::integer_text(selector_count as int));
    let w1 = w.kv_num("selector_count"@, selector_count as int);
    toml::values_are_said(w1, "range_count"@, number::integer_text(range_count as int));
    let w2 = w1.kv_num("range_count"@, range_count as int);
    toml::values_are_said(w2, "deleted_frames"@, number::integer_text(removed as int));
    let w3 = w2.kv_num("deleted_frames"@, removed as int);
    toml::texts_are_said(w3, "deletion_packing"@, packing.word());
    let w4 = w3.kv_str("deletion_packing"@, packing.word());
    toml::values_are_said(
        w4,
        "compress_partial_page"@,
        if compress_partial_page || packing == DeletionPackingArg::LocalRepack { "true"@ } else { "false"@ },
    );
    let w5 = w4.kv_bool(
        "compress_partial_page"@,
        compress_partial_page || packing == DeletionPackingArg::LocalRepack,
    );
    assert(w5 == deletion_doc(
        w,
        selector_count,
        range_count,
        removed,
        packing,
        compress_partial_page,
    ));
}

/// An edited file is printed with its path, its title, its frame type and the number of its strings.
pub proof fn edits_are_said(
    w: TomlModel,
    path: Seq<char>,
    title: Seq<char>,
    schema: SchemaModel,
    string_count: usize,
)
    requires
        !w.color,
    ensures
        ({
            let said = edit_doc(w, path, title, schema, string_count);
            &&& said.color == w.color
            &&& said.says_text("path"@, path)
            &&& said.says_text("title"@, title)
            &&& said.says_text("frame_type"@, schema.frame_type)
            &&& said.says_number("string_count"@, string_count as int)
        }),
{
    toml::headings_keep_what_is_said(w, "edit"@);
    let w1 = w.array_section("edit"@);
    toml::texts_are_said(w1, "path"@, path);
    let w2 = w1.kv_str("path"@, path);
    toml::texts_are_said(w2, "title"@, title);
    let w3 = w2.kv_str("title"@, title);
    toml::texts_are_said(w3, "frame_type"@, schema.frame_type);
    let w4 = w3.kv_str("frame_type"@, schema.frame_type);
    toml::values_are_said(w4, "string_count"@, number::integer_text(string_count as int));
    let w5 = w4.kv_num("string_count"@, string_count as int);
    semantics_keep_what_is_said(w5, schema.fields);
    assert(semantics_doc(w5, schema.fields) == edit_doc(w, path, title, schema, string_count));
}

proof fn semantics_keep_what_is_said(w: TomlModel, fields: Seq<FieldModel>)
    requires
        !w.color,
    ensures
        semantics_doc(w, fields).color == w.color,
        forall|k: Seq<char>, v: Seq<char>| #[trigger]
            w.says(k, v) ==> semantics_doc(w, fields).says(k, v),
        forall|i: int|
            0 <= i < fields.len() && (#[trigger] fields[i]).semantic != FieldSemantic::Plain
                ==> semantics_doc(w, fields).says_text(
                "semantic."@ + toml::key_word(fields[i].name),
                inspect::semantic_name(fields[i].semantic),
            ),
    decreases fields.len(),
{
    if fields.len() > 0 {
        let shorter = fields.drop_last();
        let field = fields.last();
        semantics_keep_what_is_said(w, shorter);
        assert(forall|i: int| 0 <= i < shorter.len() ==> #[trigger] fields[i] == shorter[i]);
        toml::texts_are_said(
            semantics_doc(w, shorter),
            "semantic."@ + toml::key_word(field.name),
            inspect::semantic_name(field.semantic),
        );
    }
}

/// Parts are printed one by one, each under its number.
pub proof fn parts_are_said(w: TomlModel, parts: Seq<Seq<char>>, index: int)
    requires
        !w.color,
        0 <= index < parts.len(),
    ensures
        part_names_doc(w, parts).color == w.color,
        part_names_doc(w, parts).says_text("part_"@ + number::decimal(index as nat), parts[index]),
    decreases parts.len(),
{
    let shorter = parts.drop_last();
    let last = parts.len() - 1;
    if last > 0 {
        parts_are_said(w, shorter, if index < last { index } else { 0 });
    } else {
        assert(part_names_doc(w, shorter) == w);
    }
    toml::texts_are_said(
        part_names_doc(w, shorter),
        "part_"@ + number::decimal(last as nat),
        parts[last],
    );
    if index < last {
        assert(shorter[index] == parts[index]);
    }
}

} // verus!

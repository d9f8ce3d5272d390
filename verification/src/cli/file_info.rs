//! A summary of several files, as a table, in Markdown, comma-separated, or as JSON.

use crate::cli::output;
use crate::formatting::frame::FrameFormat;
use crate::formatting::rows;
use crate::number;
use crate::options;
use crate::options::FormatVersion;
use crate::text;
use vstd::prelude::*;
use vstd::string::*;

verus! {

/// A value of JSON.
#[verifier::external_type_specification]
#[verifier::external_body]
pub struct ExValue(serde_json::Value);

/// An object of JSON.
#[verifier::external_type_specification]
#[verifier::external_body]
#[verifier::reject_recursive_types(K)]
#[verifier::reject_recursive_types(V)]
pub struct ExObject<K, V>(serde_json::Map<K, V>);

/// What an object of JSON holds under its names.
pub uninterp spec fn entries(object: serde_json::Map<String, serde_json::Value>) -> Map<
    Seq<char>,
    serde_json::Value,
>;

/// The value of JSON that a text is, or `null` where there is none.
pub uninterp spec fn text_value(value: Option<Seq<char>>) -> serde_json::Value;

/// The value of JSON that a number is.
pub uninterp spec fn number_value(value: u64) -> serde_json::Value;

/// The text of an object of JSON that holds these values under these names.
pub uninterp spec fn object_text(members: Map<Seq<char>, serde_json::Value>) -> Seq<char>;

/// How many columns a text takes up on a screen.
pub uninterp spec fn columns(value: Seq<char>) -> usize;

/// A text, or none, as characters.
pub open spec fn optional(value: Option<String>) -> Option<Seq<char>> {
    match value {
        Some(value) => Some(value@),
        None => None,
    }
}

/// What an object of JSON holds that holds nothing.
pub open spec fn no_members() -> Map<Seq<char>, serde_json::Value> {
    Map::empty()
}

/// `serde_json::Map::new` makes an object that holds nothing.
#[verifier::external_body]
fn new_object() -> (result: serde_json::Map<String, serde_json::Value>)
    ensures
        entries(result) == no_members(),
{
    serde_json::Map::new()
}

/// `serde_json::Map::insert` puts a value under a name, in place of the one that was there, and
/// leaves the rest as it was.
pub assume_specification[ serde_json::Map::<String, serde_json::Value>::insert ](
    object: &mut serde_json::Map<String, serde_json::Value>,
    k: String,
    v: serde_json::Value,
) -> (result: Option<serde_json::Value>)
    ensures
        entries(*final(object)) == entries(*old(object)).insert(k@, v),
        result == (if entries(*old(object)).dom().contains(k@) {
            Some(entries(*old(object))[k@])
        } else {
            None
        }),
;

/// `serde_json::Value::from` makes a value of JSON of a text, and `null` of none. What it makes
/// follows from the text alone.
#[verifier::external_body]
fn value_of_text(value: Option<String>) -> (result: serde_json::Value)
    ensures
        result == text_value(optional(value)),
{
    serde_json::Value::from(value)
}

/// `serde_json::Value::from` makes a value of JSON of a number. What it makes follows from the
/// number alone.
#[verifier::external_body]
fn value_of_number(value: u64) -> (result: serde_json::Value)
    ensures
        result == number_value(value),
{
    serde_json::Value::from(value)
}

/// `serde_json::Value::to_string` writes an object in one line, its names in order. What it writes
/// follows from what the object holds.
#[verifier::external_body]
fn text_of_object(object: serde_json::Map<String, serde_json::Value>) -> (result: String)
    ensures
        result@ == object_text(entries(object)),
{
    serde_json::Value::Object(object).to_string()
}

/// Whether a text is made of the printable characters of ASCII alone.
pub open spec fn is_printable(value: Seq<char>) -> bool {
    forall|i: int| 0 <= i < value.len() ==> ' ' <= #[trigger] value[i] <= '~'
}

/// `unicode_width::UnicodeWidthStr::width` counts the columns that a text takes up on a screen.
/// The count follows from the text alone, and is one for each printable character of ASCII.
#[verifier::external_body]
fn display_width(value: &str) -> (result: usize)
    ensures
        result == columns(value@),
        is_printable(value@) ==> result == value@.len(),
{
    unicode_width::UnicodeWidthStr::width(value)
}

/// Whether a path can be read without knowing the rules of a machine: no drive, no backslash, and
/// no two slashes at its start.
pub open spec fn is_simple_path(path: Seq<char>) -> bool {
    &&& forall|i: int| 0 <= i < path.len() ==> #[trigger] path[i] != ':' && path[i] != '\\'
    &&& !(path.len() >= 2 && path[0] == '/' && path[1] == '/')
}

/// Whether a text names a file in a directory.
pub open spec fn is_file_name(name: Seq<char>) -> bool {
    &&& name.len() > 0
    &&& name != "."@
    &&& name != ".."@
    &&& forall|i: int|
        0 <= i < name.len() ==> #[trigger] name[i] != '/' && name[i] != ':' && name[i] != '\\'
}

/// As many steps up as a way has.
pub open spec fn steps_up(count: nat) -> Seq<Seq<char>> {
    Seq::new(count, |i: int| ".."@)
}

/// Whether all names are names of files.
pub open spec fn are_file_names(names: Seq<Seq<char>>) -> bool {
    forall|i: int| 0 <= i < names.len() ==> is_file_name(#[trigger] names[i])
}

/// The path that leads through names, from the root or from wherever one is.
pub open spec fn path_through(rooted: bool, names: Seq<Seq<char>>) -> Seq<char> {
    if rooted {
        "/"@ + text::joined(names, "/"@)
    } else {
        text::joined(names, "/"@)
    }
}

/// Whether a directory and a path start with the names in `common` and then go apart, the directory
/// with the names in `from` and the path with those in `to`.
pub open spec fn go_apart(
    directory: Seq<char>,
    path: Seq<char>,
    rooted: bool,
    common: Seq<Seq<char>>,
    from: Seq<Seq<char>>,
    to: Seq<Seq<char>>,
) -> bool {
    &&& are_file_names(common)
    &&& are_file_names(from)
    &&& are_file_names(to)
    &&& from.len() == 0 || to.len() == 0 || from[0] != to[0]
    &&& directory == path_through(rooted, common + from)
    &&& path == path_through(rooted, common + to)
}

/// The names on the way out of directories and into others: a step up for each directory left
/// behind, and then the names that lead on.
pub open spec fn way_over(from: Seq<Seq<char>>, to: Seq<Seq<char>>) -> Seq<char> {
    text::joined(steps_up(from.len()) + to, "/"@)
}

/// A path with slashes between its names, whichever separator a machine puts there.
pub open spec fn with_slashes(path: Seq<char>) -> Seq<char> {
    text::with_replaced(path, '\\', "/"@)
}

/// `pathdiff::diff_paths` finds the way from a directory to a path. It is empty from a path to
/// itself, and the name of a file from the directory that holds it. Where both are made of plain
/// names, both from the root or both not, the way takes a step up for each name that only the
/// directory has and then the names that only the path has. A path from the root is its own way
/// from a directory that is not. Between the names of a way stands the separator of the machine.
/// What the way is to or from paths with drives, dots or backslashes, and from the root to a path
/// that is not from the root, depends on how a machine reads paths, and is left open here.
#[verifier::external_body]
fn diff_paths(path: &str, base: &str) -> (result: Option<String>)
    ensures
        path@ == base@ ==> result is Some && result->0@ == Seq::<char>::empty(),
        forall|name: Seq<char>| #[trigger]
            is_file_name(name) && is_simple_path(base@) && base@.len() > 0 && base@.last() != '/'
                && path@ == base@ + "/"@ + name ==> result is Some && result->0@ == name,
        forall|
            rooted: bool,
            common: Seq<Seq<char>>,
            from: Seq<Seq<char>>,
            to: Seq<Seq<char>>,
        | #[trigger]
            go_apart(base@, path@, rooted, common, from, to) ==> result is Some && with_slashes(
                result->0@,
            ) == way_over(from, to),
        forall|from: Seq<Seq<char>>, to: Seq<Seq<char>>|
            are_file_names(from) && are_file_names(to) && base@ == #[trigger] path_through(
                false,
                from,
            ) && path@ == #[trigger] path_through(true, to) ==> result is Some && with_slashes(
                result->0@,
            ) == path@,
{
    pathdiff::diff_paths(path, base).map(|path| path.to_string_lossy().into_owned())
}

/// The path that is shown of a file: the way to it, where there is one.
pub fn shown_path(path: &str, relative: Option<String>) -> (result: String)
    ensures
        result@ == match relative {
            Some(relative) => relative@,
            None => path@,
        },
{
    match relative {
        Some(relative) => relative,
        None => path.to_owned(),
    }
}

/// The path that is shown of a file, as seen from a directory: a step up for each directory that only
/// leads to where one is, and then the names that only lead to the file. A file in that directory is
/// shown by its name.
pub fn display_path(path: &str, current_dir: &str) -> (result: String)
    ensures
        forall|name: Seq<char>| #[trigger]
            is_file_name(name) && is_simple_path(current_dir@) && current_dir@.len() > 0
                && current_dir@.last() != '/' && path@ == current_dir@ + "/"@ + name ==> result@
                == name,
        path@ == current_dir@ ==> result@ == Seq::<char>::empty(),
        forall|
            rooted: bool,
            common: Seq<Seq<char>>,
            from: Seq<Seq<char>>,
            to: Seq<Seq<char>>,
        | #[trigger]
            go_apart(current_dir@, path@, rooted, common, from, to) ==> with_slashes(result@)
                == way_over(from, to),
        forall|from: Seq<Seq<char>>, to: Seq<Seq<char>>|
            are_file_names(from) && are_file_names(to) && current_dir@ == #[trigger] path_through(
                false,
                from,
            ) && path@ == #[trigger] path_through(true, to) ==> with_slashes(result@) == path@,
{
    shown_path(path, diff_paths(path, current_dir))
}

/// The names that lead to where steps from a directory end: `..` leaves the innermost directory, and
/// any other step goes to what it names.
pub open spec fn walked(names: Seq<Seq<char>>, steps: Seq<Seq<char>>) -> Seq<Seq<char>>
    decreases steps.len(),
{
    if steps.len() == 0 {
        names
    } else {
        let before = walked(names, steps.drop_last());
        if steps.last() == ".."@ {
            before.drop_last()
        } else {
            before.push(steps.last())
        }
    }
}

/// Whoever walks the way over from a directory to a path ends at the path.
pub proof fn the_way_over_leads_to_the_path(
    common: Seq<Seq<char>>,
    from: Seq<Seq<char>>,
    to: Seq<Seq<char>>,
)
    requires
        are_file_names(to),
    ensures
        walked(common + from, steps_up(from.len()) + to) == common + to,
    decreases from.len() + to.len(),
{
    let steps = steps_up(from.len()) + to;
    if to.len() > 0 {
        let last = to.last();
        assert(is_file_name(to[to.len() - 1]));
        assert forall|i: int| 0 <= i < to.drop_last().len() implies is_file_name(
            #[trigger] to.drop_last()[i],
        ) by {
            assert(is_file_name(to[i]));
        }
        the_way_over_leads_to_the_path(common, from, to.drop_last());
        assert(steps.drop_last() == steps_up(from.len()) + to.drop_last());
        assert((common + to.drop_last()).push(last) == common + to);
    } else if from.len() > 0 {
        steps_leave_directories(common + from, from.len());
        assert(steps == steps_up(from.len()));
        assert((common + from).take(common.len() as int) == common + to);
    } else {
        assert(steps == Seq::<Seq<char>>::empty());
        assert(common + from == common + to);
    }
}

proof fn steps_leave_directories(names: Seq<Seq<char>>, count: nat)
    requires
        count <= names.len(),
    ensures
        walked(names, steps_up(count)) == names.take(names.len() - count),
    decreases count,
{
    if count > 0 {
        let fewer = (count - 1) as nat;
        steps_leave_directories(names, fewer);
        assert(steps_up(count).drop_last() == steps_up(fewer));
        assert(names.take(names.len() - fewer).drop_last() == names.take(names.len() - count));
    } else {
        assert(steps_up(count) == Seq::<Seq<char>>::empty());
        assert(names.take(names.len() as int) == names);
    }
}

/// How a summary is printed.
#[derive(Debug, Clone, Copy, PartialEq, Eq, Structural)]
pub enum InfoFormat {
    Table,
    Markdown,
    Csv,
    JsonLines,
}

impl Default for InfoFormat {
    fn default() -> (result: Self)
        ensures
            result == InfoFormat::Table,
    {
        InfoFormat::Table
    }
}

impl InfoFormat {
    /// The format that a word stands for.
    pub open spec fn named(word: Seq<char>) -> Option<InfoFormat> {
        if word == "table"@ {
            Some(InfoFormat::Table)
        } else if word == "md"@ {
            Some(InfoFormat::Markdown)
        } else if word == "csv"@ {
            Some(InfoFormat::Csv)
        } else if word == "jsonl"@ {
            Some(InfoFormat::JsonLines)
        } else {
            None
        }
    }

    /// The format that a word stands for.
    pub fn parse(value: &str) -> (result: Option<Self>)
        ensures
            result == InfoFormat::named(value@),
    {
        if text::same(value, "table") {
            Some(InfoFormat::Table)
        } else if text::same(value, "md") {
            Some(InfoFormat::Markdown)
        } else if text::same(value, "csv") {
            Some(InfoFormat::Csv)
        } else if text::same(value, "jsonl") {
            Some(InfoFormat::JsonLines)
        } else {
            None
        }
    }
}

/// The words of a summary: a format, and paths.
pub struct InfoWords {
    pub format: Option<InfoFormat>,
    pub paths: Seq<Seq<char>>,
}

/// The words of a summary, or why they are refused.
pub open spec fn info_words(values: Seq<Seq<char>>) -> Result<InfoWords, Seq<char>>
    decreases values.len(),
{
    if values.len() == 0 {
        Ok(InfoWords { format: None, paths: Seq::empty() })
    } else {
        match info_words(values.drop_last()) {
            Err(message) => Err(message),
            Ok(words) => match InfoFormat::named(values.last()) {
                None => Ok(InfoWords { paths: words.paths.push(values.last()), ..words }),
                Some(format) => if words.format is Some {
                    Err("info accepts at most one output format token"@)
                } else {
                    Ok(InfoWords { format: Some(format), ..words })
                },
            },
        }
    }
}

proof fn info_error_stays(values: Seq<Seq<char>>, count: int)
    requires
        0 <= count <= values.len(),
        info_words(values.take(count)) is Err,
    ensures
        info_words(values) == info_words(values.take(count)),
    decreases values.len() - count,
{
    if count < values.len() {
        assert(values.take(count + 1).drop_last() == values.take(count));
        info_error_stays(values, count + 1);
    } else {
        assert(values.take(count) == values);
    }
}

/// The paths and the format of a summary: of the current directory where no path is named, and as a
/// table where no format is.
pub fn parse_targets(values: &[String]) -> (result: Result<(Vec<String>, InfoFormat), String>)
    ensures
        match result {
            Ok((paths, format)) => {
                let words = info_words(text::views(values@));
                &&& words is Ok
                &&& text::views(paths@) == if words->Ok_0.paths.len() == 0 {
                    seq!["."@]
                } else {
                    words->Ok_0.paths
                }
                &&& format == match words->Ok_0.format {
                    Some(format) => format,
                    None => InfoFormat::Table,
                }
            },
            Err(message) => info_words(text::views(values@)) == Err::<InfoWords, Seq<char>>(
                message@,
            ),
        },
{
    let ghost words = text::views(values@);
    let mut format: Option<InfoFormat> = None;
    let mut paths: Vec<String> = Vec::new();
    let mut i: usize = 0;
    assert(words.take(0) == Seq::<Seq<char>>::empty());
    assert(text::views(paths@) == Seq::<Seq<char>>::empty());
    while i < values.len()
        invariant
            i <= values@.len(),
            words == text::views(values@),
            info_words(words.take(i as int)) == Ok::<InfoWords, Seq<char>>(
                InfoWords { format, paths: text::views(paths@) },
            ),
        decreases values@.len() - i,
    {
        let ghost before = text::views(paths@);
        assert(words.take(i as int + 1).drop_last() == words.take(i as int));
        assert(words.take(i as int + 1).last() == values@[i as int]@);
        match InfoFormat::parse(values[i].as_str()) {
            Some(parsed) => {
                if format.is_some() {
                    proof {
                        info_error_stays(words, i as int + 1);
                    }
                    return Err("info accepts at most one output format token".to_owned());
                }
                format = Some(parsed);
            },
            None => {
                paths.push(values[i].clone());
                assert(text::views(paths@) == before.push(values@[i as int]@));
            },
        }
        i = i + 1;
    }
    assert(words.take(i as int) == words);
    if paths.len() == 0 {
        paths.push(".".to_owned());
        assert(text::views(paths@) == seq!["."@]);
    }
    let chosen: InfoFormat = match format {
        Some(format) => format,
        None => InfoFormat::default(),
    };
    Ok((paths, chosen))
}

/// How many bytes the frames of a file take up before they are stored.
pub fn data_bytes(frame_count: u64, frame_len: u32) -> (result: Result<u64, String>)
    ensures
        match result {
            Ok(bytes) => bytes == frame_count * frame_len,
            Err(message) => frame_count * frame_len > u64::MAX && message@
                == "raw data byte count overflows u64"@,
        },
{
    match frame_count.checked_mul(frame_len as u64) {
        Some(bytes) => Ok(bytes),
        None => Err("raw data byte count overflows u64".to_owned()),
    }
}

/// What a summary says of a file.
pub struct FileInfo {
    pub display_path: String,
    pub format: FormatVersion,
    pub title: String,
    pub frame_type: String,
    pub key_field_index: usize,
    pub field_count: usize,
    pub frame_length: u32,
    pub frame_count: u64,
    pub first_key: Option<String>,
    pub last_key: Option<String>,
    pub data_bytes: u64,
    /// Bytes of the file to bytes of its frames, to four places, where it has frames.
    pub physical_ratio: Option<String>,
}

/// A text without the characters that would break a line or a column.
pub open spec fn shown_text(value: Seq<char>) -> Seq<char> {
    value.map_values(
        |ch: char|
            if ch == '\r' || ch == '\n' || ch == '\t' {
                ' '
            } else {
                ch
            },
    )
}

/// A text without the characters that would break a line or a column.
pub fn display_text(value: &str) -> (result: String)
    ensures
        result@ == shown_text(value@),
{
    let chars: Vec<char> = text::chars_of(value);
    let mut result: String = String::new();
    let mut i: usize = 0;
    while i < chars.len()
        invariant
            i <= chars@.len(),
            chars@ == value@,
            result@ == shown_text(value@).take(i as int),
        decreases chars@.len() - i,
    {
        let ch: char = chars[i];
        result.push(if ch == '\r' || ch == '\n' || ch == '\t' { ' ' } else { ch });
        i = i + 1;
        assert(result@ == shown_text(value@).take(i as int));
    }
    assert(shown_text(value@).take(i as int) == shown_text(value@));
    result
}

/// A number, with its digits in groups where that is asked for.
pub open spec fn count_text(value: int, grouped: bool) -> Seq<char> {
    if grouped {
        number::grouped_integer(value)
    } else {
        number::integer_text(value)
    }
}

/// A text, or a dash where there is none.
pub open spec fn or_dash(value: Option<String>) -> Seq<char> {
    match value {
        Some(value) => value@,
        None => "-"@,
    }
}

/// The headers of a summary.
pub open spec fn headers() -> Seq<Seq<char>> {
    seq![
        "file"@,
        "format"@,
        "title"@,
        "frame_type"@,
        "key_field_index"@,
        "field_count"@,
        "frame_length"@,
        "frame_count"@,
        "first_key"@,
        "last_key"@,
        "data_bytes"@,
        "physical_ratio"@,
    ]
}

/// Which columns of a summary are aligned to their right: those behind the first four.
pub open spec fn right_aligned() -> Seq<bool> {
    Seq::new(12, |i: int| i >= 4)
}

/// The cells of a summary of one file.
pub open spec fn info_cells(info: FileInfo, grouped: bool) -> Seq<Seq<char>> {
    seq![
        shown_text(info.display_path@),
        options::format_name_text(info.format),
        shown_text(info.title@),
        shown_text(info.frame_type@),
        count_text(info.key_field_index as int, grouped),
        count_text(info.field_count as int, grouped),
        count_text(info.frame_length as int, grouped),
        count_text(info.frame_count as int, grouped),
        or_dash(info.first_key),
        or_dash(info.last_key),
        count_text(info.data_bytes as int, grouped),
        or_dash(info.physical_ratio),
    ]
}

fn show_count(value: u64, grouped: bool) -> (result: String)
    ensures
        result@ == count_text(value as int, grouped),
{
    if grouped {
        number::comma_u64(value)
    } else {
        number::decimal_string(value as u128)
    }
}

fn show_or_dash(value: &Option<String>) -> (result: String)
    ensures
        result@ == or_dash(*value),
{
    match value {
        Some(value) => value.clone(),
        None => "-".to_owned(),
    }
}

/// The cells of a summary of one file.
pub fn display_cells(info: &FileInfo, grouped: bool) -> (result: Vec<String>)
    ensures
        text::views(result@) == info_cells(*info, grouped),
{
    let mut cells: Vec<String> = Vec::new();
    cells.push(display_text(info.display_path.as_str()));
    cells.push(options::format_name(info.format).to_owned());
    cells.push(display_text(info.title.as_str()));
    cells.push(display_text(info.frame_type.as_str()));
    cells.push(show_count(info.key_field_index as u64, grouped));
    cells.push(show_count(info.field_count as u64, grouped));
    cells.push(show_count(info.frame_length as u64, grouped));
    cells.push(show_count(info.frame_count, grouped));
    cells.push(show_or_dash(&info.first_key));
    cells.push(show_or_dash(&info.last_key));
    cells.push(show_count(info.data_bytes, grouped));
    cells.push(show_or_dash(&info.physical_ratio));
    assert(text::views(cells@) == info_cells(*info, grouped));
    cells
}

fn header_cells() -> (result: Vec<String>)
    ensures
        text::views(result@) == headers(),
{
    let mut cells: Vec<String> = Vec::new();
    cells.push("file".to_owned());
    cells.push("format".to_owned());
    cells.push("title".to_owned());
    cells.push("frame_type".to_owned());
    cells.push("key_field_index".to_owned());
    cells.push("field_count".to_owned());
    cells.push("frame_length".to_owned());
    cells.push("frame_count".to_owned());
    cells.push("first_key".to_owned());
    cells.push("last_key".to_owned());
    cells.push("data_bytes".to_owned());
    cells.push("physical_ratio".to_owned());
    assert(text::views(cells@) == headers());
    cells
}

/// The cells of a summary of files.
pub open spec fn all_cells(infos: Seq<FileInfo>, grouped: bool) -> Seq<Seq<Seq<char>>> {
    infos.map_values(|info: FileInfo| info_cells(info, grouped))
}

fn display_all(infos: &[FileInfo], grouped: bool) -> (result: Vec<Vec<String>>)
    ensures
        output::row_views(result@) == all_cells(infos@, grouped),
        forall|i: int| 0 <= i < result@.len() ==> (#[trigger] result@[i])@.len() == 12,
{
    let mut cells: Vec<Vec<String>> = Vec::new();
    let mut i: usize = 0;
    while i < infos.len()
        invariant
            i <= infos@.len(),
            cells@.len() == i,
            forall|j: int|
                0 <= j < i ==> text::views((#[trigger] cells@[j])@) == info_cells(
                    infos@[j],
                    grouped,
                ),
        decreases infos@.len() - i,
    {
        cells.push(display_cells(&infos[i], grouped));
        i = i + 1;
    }
    assert forall|j: int| 0 <= j < cells@.len() implies (#[trigger] cells@[j])@.len() == 12 by {
        assert(text::views(cells@[j]@).len() == info_cells(infos@[j], grouped).len());
    }
    assert(output::row_views(cells@) == all_cells(infos@, grouped));
    cells
}

/// The most columns that one of some texts takes up, or `least`.
pub open spec fn widest(values: Seq<Seq<char>>, least: usize) -> usize
    decreases values.len(),
{
    if values.len() == 0 {
        least
    } else if columns(values.last()) > widest(values.drop_last(), least) {
        columns(values.last())
    } else {
        widest(values.drop_last(), least)
    }
}

/// The width of each column of a table: that of its widest cell or its header.
pub open spec fn screen_widths(names: Seq<Seq<char>>, cells: Seq<Seq<Seq<char>>>) -> Seq<usize> {
    Seq::new(names.len(), |i: int| widest(output::column(cells, i), columns(names[i])))
}

/// A cell with spaces on one side of it up to the width of its column.
pub open spec fn screen_cell(value: Seq<char>, width: usize, right: bool) -> Seq<char> {
    let padding = text::repeated(
        ' ',
        if columns(value) < width {
            (width - columns(value)) as nat
        } else {
            0
        },
    );
    if right {
        padding + value
    } else {
        value + padding
    }
}

/// Cells in their columns, two spaces between each two.
pub open spec fn screen_cells(values: Seq<Seq<char>>, widths: Seq<usize>) -> Seq<char>
    decreases values.len(),
{
    if values.len() == 0 {
        Seq::empty()
    } else {
        let last = values.len() - 1;
        let before = screen_cells(values.drop_last(), widths);
        (if last > 0 {
            before + "  "@
        } else {
            before
        }) + screen_cell(values[last], widths[last], right_aligned()[last])
    }
}

/// Lines of cells in their columns.
pub open spec fn screen_lines(cells: Seq<Seq<Seq<char>>>, widths: Seq<usize>) -> Seq<char>
    decreases cells.len(),
{
    if cells.len() == 0 {
        Seq::empty()
    } else {
        screen_lines(cells.drop_last(), widths) + screen_cells(cells.last(), widths) + "\n"@
    }
}

/// A summary of files as a table.
pub open spec fn table_text(infos: Seq<FileInfo>) -> Seq<char> {
    let cells = all_cells(infos, true);
    let widths = screen_widths(headers(), cells);
    screen_cells(headers(), widths) + "\n"@ + screen_lines(cells, widths)
}

fn push_screen_row(out: &mut String, row: &Vec<String>, widths: &Vec<usize>)
    requires
        row@.len() == 12,
        widths@.len() == 12,
    ensures
        final(out)@ == old(out)@ + (screen_cells(text::views(row@), widths@) + "\n"@),
{
    let ghost texts = text::views(row@);
    let ghost before = out@;
    let mut i: usize = 0;
    assert(texts.take(0) == Seq::<Seq<char>>::empty());
    assert(out@ == before + screen_cells(texts.take(0), widths@));
    while i < row.len()
        invariant
            i <= row@.len() == 12,
            widths@.len() == 12,
            texts == text::views(row@),
            out@ == before + screen_cells(texts.take(i as int), widths@),
        decreases row@.len() - i,
    {
        assert(texts.take(i as int + 1).drop_last() == texts.take(i as int));
        if i > 0 {
            out.append("  ");
        }
        let value: &str = row[i].as_str();
        let width: usize = display_width(value);
        let padding: usize = if width < widths[i] { widths[i] - width } else { 0 };
        if i >= 4 {
            text::push_repeated(out, ' ', padding);
            out.append(value);
        } else {
            out.append(value);
            text::push_repeated(out, ' ', padding);
        }
        i = i + 1;
        assert(out@ == before + screen_cells(texts.take(i as int), widths@));
    }
    assert(texts.take(i as int) == texts);
    out.append("\n");
    assert(out@ == before + (screen_cells(texts, widths@) + "\n"@));
}

fn widen(widths: &mut Vec<usize>, row: &Vec<String>)
    requires
        old(widths)@.len() == row@.len(),
    ensures
        final(widths)@.len() == row@.len(),
        forall|j: int|
            0 <= j < row@.len() ==> (#[trigger] final(widths)@[j]) == if columns(row@[j]@) > old(
                widths,
            )@[j] {
                columns(row@[j]@)
            } else {
                old(widths)@[j]
            },
{
    let ghost before = widths@;
    let mut i: usize = 0;
    while i < row.len()
        invariant
            i <= row@.len() == widths@.len(),
            before.len() == widths@.len(),
            before == old(widths)@,
            forall|j: int|
                0 <= j < i ==> (#[trigger] widths@[j]) == if columns(row@[j]@) > before[j] {
                    columns(row@[j]@)
                } else {
                    before[j]
                },
            forall|j: int| i <= j < row@.len() ==> #[trigger] widths@[j] == before[j],
        decreases row@.len() - i,
    {
        let width: usize = display_width(row[i].as_str());
        if width > widths[i] {
            widths.set(i, width);
        }
        i = i + 1;
    }
}

fn measure(names: &Vec<String>, cells: &Vec<Vec<String>>) -> (result: Vec<usize>)
    requires
        forall|i: int| 0 <= i < cells@.len() ==> (#[trigger] cells@[i])@.len() == names@.len(),
    ensures
        result@ == screen_widths(text::views(names@), output::row_views(cells@)),
{
    let ghost heads = text::views(names@);
    let ghost texts = output::row_views(cells@);
    let mut widths: Vec<usize> = Vec::new();
    let mut i: usize = 0;
    while i < names.len()
        invariant
            i <= names@.len(),
            widths@.len() == i,
            forall|j: int| 0 <= j < i ==> #[trigger] widths@[j] == columns(names@[j]@),
        decreases names@.len() - i,
    {
        widths.push(display_width(names[i].as_str()));
        i = i + 1;
    }
    let mut r: usize = 0;
    proof {
        assert forall|j: int| 0 <= j < names@.len() implies #[trigger] widths@[j] == widest(
            output::column(texts.take(0), j),
            columns(heads[j]),
        ) by {
            assert(output::column(texts.take(0), j) == Seq::<Seq<char>>::empty());
        }
    }
    while r < cells.len()
        invariant
            r <= cells@.len(),
            heads == text::views(names@),
            texts == output::row_views(cells@),
            widths@.len() == names@.len(),
            forall|i: int| 0 <= i < cells@.len() ==> (#[trigger] cells@[i])@.len() == names@.len(),
            forall|j: int|
                0 <= j < names@.len() ==> #[trigger] widths@[j] == widest(
                    output::column(texts.take(r as int), j),
                    columns(heads[j]),
                ),
        decreases cells@.len() - r,
    {
        let row: &Vec<String> = &cells[r];
        let ghost before = widths@;
        widen(&mut widths, row);
        proof {
            assert forall|j: int| 0 <= j < names@.len() implies #[trigger] widths@[j] == widest(
                output::column(texts.take(r as int + 1), j),
                columns(heads[j]),
            ) by {
                let column = output::column(texts.take(r as int + 1), j);
                assert(column.drop_last() == output::column(texts.take(r as int), j));
                assert(column.last() == row@[j]@);
                assert(before[j] == widest(
                    output::column(texts.take(r as int), j),
                    columns(heads[j]),
                ));
            }
        }
        r = r + 1;
    }
    assert(texts.take(r as int) == texts);
    assert(widths@ == screen_widths(heads, texts));
    widths
}

/// A summary of files as a table.
pub fn write_table(infos: &[FileInfo]) -> (result: String)
    ensures
        result@ == table_text(infos@),
{
    let names: Vec<String> = header_cells();
    let cells: Vec<Vec<String>> = display_all(infos, true);
    let ghost texts = output::row_views(cells@);
    assert(text::views(names@).len() == 12);
    let widths: Vec<usize> = measure(&names, &cells);
    let mut out: String = String::new();
    push_screen_row(&mut out, &names, &widths);
    let ghost head = out@;
    assert(head == screen_cells(headers(), widths@) + "\n"@);
    let mut i: usize = 0;
    assert(texts.take(0) == Seq::<Seq<Seq<char>>>::empty());
    assert(out@ == head + screen_lines(texts.take(0), widths@));
    while i < cells.len()
        invariant
            i <= cells@.len(),
            widths@.len() == 12,
            texts == output::row_views(cells@),
            forall|j: int| 0 <= j < cells@.len() ==> (#[trigger] cells@[j])@.len() == 12,
            out@ == head + screen_lines(texts.take(i as int), widths@),
        decreases cells@.len() - i,
    {
        push_screen_row(&mut out, &cells[i], &widths);
        i = i + 1;
        assert(texts.take(i as int).drop_last() == texts.take(i - 1));
        assert(out@ == head + screen_lines(texts.take(i as int), widths@));
    }
    assert(texts.take(i as int) == texts);
    out
}

/// The separators below the headers of a Markdown table.
pub open spec fn separators() -> Seq<Seq<char>> {
    right_aligned().map_values(
        |right: bool|
            if right {
                "---:"@
            } else {
                "---"@
            },
    )
}

/// Rows of a Markdown table.
pub open spec fn markdown_rows(cells: Seq<Seq<Seq<char>>>) -> Seq<char>
    decreases cells.len(),
{
    if cells.len() == 0 {
        Seq::empty()
    } else {
        markdown_rows(cells.drop_last()) + rows::markdown_row(cells.last())
    }
}

/// A summary of files in Markdown.
pub open spec fn markdown_text(infos: Seq<FileInfo>) -> Seq<char> {
    rows::markdown_row(headers()) + rows::markdown_row(separators()) + markdown_rows(
        all_cells(infos, true),
    )
}

/// A summary of files in Markdown.
pub fn write_markdown(infos: &[FileInfo]) -> (result: String)
    ensures
        result@ == markdown_text(infos@),
{
    let names: Vec<String> = header_cells();
    let mut lines: Vec<String> = Vec::new();
    let mut k: usize = 0;
    while k < 12
        invariant
            k <= 12,
            lines@.len() == k,
            forall|j: int|
                0 <= j < k ==> (#[trigger] lines@[j])@ == if j >= 4 {
                    "---:"@
                } else {
                    "---"@
                },
        decreases 12 - k,
    {
        lines.push(
            (if k >= 4 {
                "---:"
            } else {
                "---"
            }).to_owned(),
        );
        k = k + 1;
    }
    assert(text::views(lines@) == separators());
    let cells: Vec<Vec<String>> = display_all(infos, true);
    let ghost texts = output::row_views(cells@);
    let mut out: String = String::new();
    rows::write_markdown_row(&mut out, &names);
    rows::write_markdown_row(&mut out, &lines);
    let ghost head = out@;
    assert(head == rows::markdown_row(headers()) + rows::markdown_row(separators()));
    let mut i: usize = 0;
    assert(texts.take(0) == Seq::<Seq<Seq<char>>>::empty());
    assert(out@ == head + markdown_rows(texts.take(0)));
    while i < cells.len()
        invariant
            i <= cells@.len(),
            texts == output::row_views(cells@),
            out@ == head + markdown_rows(texts.take(i as int)),
        decreases cells@.len() - i,
    {
        rows::write_markdown_row(&mut out, &cells[i]);
        i = i + 1;
        assert(texts.take(i as int).drop_last() == texts.take(i - 1));
        assert(out@ == head + markdown_rows(texts.take(i as int)));
    }
    assert(texts.take(i as int) == texts);
    out
}

/// Lines of comma-separated values.
pub open spec fn csv_rows(cells: Seq<Seq<Seq<char>>>) -> Seq<char>
    decreases cells.len(),
{
    if cells.len() == 0 {
        Seq::empty()
    } else {
        csv_rows(cells.drop_last()) + rows::csv_row(cells.last())
    }
}

/// A summary of files as comma-separated values, its numbers without groups.
pub open spec fn csv_text(infos: Seq<FileInfo>) -> Seq<char> {
    rows::csv_row(headers()) + csv_rows(all_cells(infos, false))
}

/// A summary of files as comma-separated values, its numbers without groups.
pub fn write_csv(infos: &[FileInfo]) -> (result: String)
    ensures
        result@ == csv_text(infos@),
{
    let names: Vec<String> = header_cells();
    let cells: Vec<Vec<String>> = display_all(infos, false);
    let ghost texts = output::row_views(cells@);
    let mut out: String = String::new();
    rows::write_csv_row(&mut out, &names);
    let ghost head = out@;
    assert(head == rows::csv_row(headers()));
    let mut i: usize = 0;
    assert(texts.take(0) == Seq::<Seq<Seq<char>>>::empty());
    assert(out@ == head + csv_rows(texts.take(0)));
    while i < cells.len()
        invariant
            i <= cells@.len(),
            texts == output::row_views(cells@),
            out@ == head + csv_rows(texts.take(i as int)),
        decreases cells@.len() - i,
    {
        rows::write_csv_row(&mut out, &cells[i]);
        i = i + 1;
        assert(texts.take(i as int).drop_last() == texts.take(i - 1));
        assert(out@ == head + csv_rows(texts.take(i as int)));
    }
    assert(texts.take(i as int) == texts);
    out
}

/// What the object of a file holds; `physical_ratio` is a number, or `null` where the file has no
/// frames.
pub open spec fn info_members(info: FileInfo, physical_ratio: serde_json::Value) -> Map<
    Seq<char>,
    serde_json::Value,
> {
    no_members().insert(
        "file"@,
        text_value(Some(info.display_path@)),
    ).insert("format"@, text_value(Some(options::format_name_text(info.format)))).insert(
        "title"@,
        text_value(Some(info.title@)),
    ).insert("frame_type"@, text_value(Some(info.frame_type@))).insert(
        "key_field_index"@,
        number_value(info.key_field_index as u64),
    ).insert("field_count"@, number_value(info.field_count as u64)).insert(
        "frame_length"@,
        number_value(info.frame_length as u64),
    ).insert("frame_count"@, number_value(info.frame_count)).insert(
        "first_key"@,
        text_value(optional(info.first_key)),
    ).insert("last_key"@, text_value(optional(info.last_key))).insert(
        "data_bytes"@,
        number_value(info.data_bytes),
    ).insert("physical_ratio"@, physical_ratio)
}

fn copy_optional(value: &Option<String>) -> (result: Option<String>)
    ensures
        optional(result) == optional(*value),
{
    match value {
        Some(value) => Some(value.clone()),
        None => None,
    }
}

/// The object of a file.
pub fn info_object(info: &FileInfo, physical_ratio: serde_json::Value) -> (result: serde_json::Map<
    String,
    serde_json::Value,
>)
    ensures
        entries(result) == info_members(*info, physical_ratio),
{
    let mut object: serde_json::Map<String, serde_json::Value> = new_object();
    object.insert("file".to_owned(), value_of_text(Some(info.display_path.clone())));
    object.insert(
        "format".to_owned(),
        value_of_text(Some(options::format_name(info.format).to_owned())),
    );
    object.insert("title".to_owned(), value_of_text(Some(info.title.clone())));
    object.insert("frame_type".to_owned(), value_of_text(Some(info.frame_type.clone())));
    object.insert("key_field_index".to_owned(), value_of_number(info.key_field_index as u64));
    object.insert("field_count".to_owned(), value_of_number(info.field_count as u64));
    object.insert("frame_length".to_owned(), value_of_number(info.frame_length as u64));
    object.insert("frame_count".to_owned(), value_of_number(info.frame_count));
    object.insert("first_key".to_owned(), value_of_text(copy_optional(&info.first_key)));
    object.insert("last_key".to_owned(), value_of_text(copy_optional(&info.last_key)));
    object.insert("data_bytes".to_owned(), value_of_number(info.data_bytes));
    object.insert("physical_ratio".to_owned(), physical_ratio);
    object
}

/// The line of a file in a summary of objects.
pub fn json_line(info: &FileInfo, physical_ratio: serde_json::Value) -> (result: String)
    ensures
        result@ == object_text(info_members(*info, physical_ratio)) + "\n"@,
{
    let mut line: String = text_of_object(info_object(info, physical_ratio));
    line.append("\n");
    line
}

/// A summary takes the arguments that name a format for the format, all others for paths in their
/// order, and refuses a second format wherever it stands.
pub proof fn formats_and_paths_are_told_apart(values: Seq<Seq<char>>)
    ensures
        info_words(values) is Err <==> exists|i: int, j: int|
            0 <= i < j < values.len() && InfoFormat::named(#[trigger] values[i]) is Some
                && InfoFormat::named(#[trigger] values[j]) is Some,
        info_words(values) matches Ok(words) ==> {
            &&& words.paths == values.filter(|value: Seq<char>| InfoFormat::named(value) is None)
            &&& forall|i: int|
                0 <= i < values.len() && InfoFormat::named(#[trigger] values[i]) is Some
                    ==> words.format == InfoFormat::named(values[i])
            &&& words.format is Some ==> exists|i: int|
                0 <= i < values.len() && InfoFormat::named(#[trigger] values[i]) == words.format
        },
    decreases values.len(),
{
    reveal(Seq::filter);
    if values.len() > 0 {
        let shorter = values.drop_last();
        let last = values.len() - 1;
        formats_and_paths_are_told_apart(shorter);
        assert(forall|i: int| 0 <= i < shorter.len() ==> #[trigger] shorter[i] == values[i]);
        assert(forall|i: int| 0 <= i < shorter.len() ==> #[trigger] values[i] == shorter[i]);
        assert(values[last] == values.last());
        if info_words(shorter) is Ok {
            assert(info_words(shorter)->Ok_0.format is Some ==> exists|i: int|
                0 <= i < last && InfoFormat::named(#[trigger] values[i]) is Some);
        }
    }
}

/// The formats of a summary are called as those of frames are.
pub proof fn formats_are_called_alike(word: Seq<char>)
    ensures
        InfoFormat::named(word) == Some(InfoFormat::Table) <==> FrameFormat::named(word) == Some(
            FrameFormat::Table,
        ),
        InfoFormat::named(word) == Some(InfoFormat::Markdown) <==> FrameFormat::named(word) == Some(
            FrameFormat::Markdown,
        ),
        InfoFormat::named(word) == Some(InfoFormat::Csv) <==> FrameFormat::named(word) == Some(
            FrameFormat::Csv,
        ),
        InfoFormat::named(word) == Some(InfoFormat::JsonLines) <==> FrameFormat::named(word)
            == Some(FrameFormat::JsonLines),
{
    reveal_strlit("table");
    reveal_strlit("md");
    reveal_strlit("csv");
    reveal_strlit("jsonl");
    reveal_strlit("raw");
    reveal_strlit("hex");
    assert("table"@.len() == 5);
    assert("md"@.len() == 2);
    assert("csv"@.len() == 3);
    assert("jsonl"@.len() == 5);
    assert("raw"@.len() == 3);
    assert("hex"@.len() == 3);
    assert("table"@[0] == 't');
    assert("jsonl"@[0] == 'j');
    assert("csv"@[0] == 'c');
    assert("raw"@[0] == 'r');
    assert("hex"@[0] == 'h');
}

/// A number in a summary reads back, with its digits in groups or without.
pub proof fn counts_read_back(value: int, grouped: bool)
    ensures
        number::integer_value(number::without_commas(count_text(value, grouped))) == Some(value),
        !grouped ==> number::integer_value(count_text(value, grouped)) == Some(value),
{
    if grouped {
        number::grouped_integer_reads_back(value);
    } else {
        number::integer_reads_back(value);
        integers_have_no_commas(value);
    }
}

proof fn integers_have_no_commas(value: int)
    ensures
        number::without_commas(number::integer_text(value)) == number::integer_text(value),
{
    reveal_strlit("-");
    let text = number::integer_text(value);
    let size = if value < 0 {
        (-value) as nat
    } else {
        value as nat
    };
    let digits = number::decimal(size);
    number::decimal_is_digits(size);
    assert forall|i: int| 0 <= i < text.len() implies text[i] != ',' by {
        if value < 0 && i > 0 {
            assert(number::is_digit(digits[i - 1]));
        } else if value >= 0 {
            assert(number::is_digit(digits[i]));
        }
    }
    nothing_to_take_out(text);
}

proof fn nothing_to_take_out(text: Seq<char>)
    requires
        forall|i: int| 0 <= i < text.len() ==> text[i] != ',',
    ensures
        number::without_commas(text) == text,
    decreases text.len(),
{
    reveal(Seq::filter);
    if text.len() > 0 {
        nothing_to_take_out(text.drop_last());
        assert(text.last() != ',');
        assert(text.drop_last().push(text.last()) == text);
    }
}

/// A text in a summary is as long as it was, holds no line end and no tab, and differs from what it
/// was only where it held one.
pub proof fn shown_texts_stay_on_their_line(value: Seq<char>, index: int)
    requires
        0 <= index < value.len(),
    ensures
        shown_text(value).len() == value.len(),
        shown_text(value)[index] != '\n',
        shown_text(value)[index] != '\r',
        shown_text(value)[index] != '\t',
        value[index] != '\n' && value[index] != '\r' && value[index] != '\t' ==> shown_text(
            value,
        )[index] == value[index],
{
}

/// The cell of a summary below a header says what the header names: a number reads back, and a dash
/// stands for a key or a ratio that a file does not have.
pub proof fn cells_stand_below_their_headers(info: FileInfo, grouped: bool, index: int)
    requires
        0 <= index < headers().len(),
    ensures
        ({
            let cell = info_cells(info, grouped)[index];
            let count = number::integer_value(number::without_commas(cell));
            let name = headers()[index];
            &&& info_cells(info, grouped).len() == headers().len()
            &&& right_aligned().len() == headers().len()
            &&& name == "file"@ ==> cell == shown_text(info.display_path@)
            &&& name == "format"@ ==> cell == options::format_name_text(info.format)
            &&& name == "title"@ ==> cell == shown_text(info.title@)
            &&& name == "frame_type"@ ==> cell == shown_text(info.frame_type@)
            &&& name == "key_field_index"@ ==> count == Some(info.key_field_index as int)
            &&& name == "field_count"@ ==> count == Some(info.field_count as int)
            &&& name == "frame_length"@ ==> count == Some(info.frame_length as int)
            &&& name == "frame_count"@ ==> count == Some(info.frame_count as int)
            &&& name == "first_key"@ ==> cell == or_dash(info.first_key)
            &&& name == "last_key"@ ==> cell == or_dash(info.last_key)
            &&& name == "data_bytes"@ ==> count == Some(info.data_bytes as int)
            &&& name == "physical_ratio"@ ==> cell == or_dash(info.physical_ratio)
        }),
{
    headers_differ();
    counts_read_back(info.key_field_index as int, grouped);
    counts_read_back(info.field_count as int, grouped);
    counts_read_back(info.frame_length as int, grouped);
    counts_read_back(info.frame_count as int, grouped);
    counts_read_back(info.data_bytes as int, grouped);
}

proof fn headers_differ()
    ensures
        "file"@.len() == 4,
        "format"@.len() == 6,
        "title"@.len() == 5,
        "frame_type"@.len() == 10,
        "key_field_index"@.len() == 15,
        "field_count"@.len() == 11,
        "frame_length"@.len() == 12,
        "frame_count"@.len() == 11,
        "first_key"@.len() == 9,
        "last_key"@.len() == 8,
        "data_bytes"@.len() == 10,
        "physical_ratio"@.len() == 14,
        "frame_type"@ != "data_bytes"@,
        "field_count"@ != "frame_count"@,
{
    reveal_strlit("file");
    reveal_strlit("format");
    reveal_strlit("title");
    reveal_strlit("frame_type");
    reveal_strlit("key_field_index");
    reveal_strlit("field_count");
    reveal_strlit("frame_length");
    reveal_strlit("frame_count");
    reveal_strlit("first_key");
    reveal_strlit("last_key");
    reveal_strlit("data_bytes");
    reveal_strlit("physical_ratio");
    assert("frame_type"@[0] == 'f');
    assert("data_bytes"@[0] == 'd');
    assert("field_count"@[1] == 'i');
    assert("frame_count"@[1] == 'r');
}

/// The object of a file has one member for each header of a summary, and each says what its name
/// says.
pub proof fn members_are_named_as_the_headers(info: FileInfo, physical_ratio: serde_json::Value)
    ensures
        ({
            let members = info_members(info, physical_ratio);
            &&& members["file"@] == text_value(Some(info.display_path@))
            &&& members["format"@] == text_value(Some(options::format_name_text(info.format)))
            &&& members["title"@] == text_value(Some(info.title@))
            &&& members["frame_type"@] == text_value(Some(info.frame_type@))
            &&& members["key_field_index"@] == number_value(info.key_field_index as u64)
            &&& members["field_count"@] == number_value(info.field_count as u64)
            &&& members["frame_length"@] == number_value(info.frame_length as u64)
            &&& members["frame_count"@] == number_value(info.frame_count)
            &&& members["first_key"@] == text_value(optional(info.first_key))
            &&& members["last_key"@] == text_value(optional(info.last_key))
            &&& members["data_bytes"@] == number_value(info.data_bytes)
            &&& members["physical_ratio"@] == physical_ratio
            &&& forall|i: int|
                0 <= i < headers().len() ==> members.contains_key(#[trigger] headers()[i])
            &&& forall|name: Seq<char>|
                members.contains_key(name) ==> #[trigger] headers().contains(name)
        }),
{
    headers_differ();
    let names = headers();
    let members = info_members(info, physical_ratio);
    assert(names[0] == "file"@ && names[1] == "format"@ && names[2] == "title"@);
    assert(names[3] == "frame_type"@ && names[4] == "key_field_index"@);
    assert(names[5] == "field_count"@ && names[6] == "frame_length"@ && names[7] == "frame_count"@);
    assert(names[8] == "first_key"@ && names[9] == "last_key"@ && names[10] == "data_bytes"@);
    assert(names[11] == "physical_ratio"@);
}

/// Texts stand to the left and numbers, keys and the ratio to the right, in a table and in Markdown
/// alike; a cell is kept whole on its side of the column.
pub proof fn numbers_stand_to_the_right(index: int, value: Seq<char>, width: usize)
    requires
        0 <= index < headers().len(),
    ensures
        right_aligned()[index] <==> !(headers()[index] == "file"@ || headers()[index] == "format"@
            || headers()[index] == "title"@ || headers()[index] == "frame_type"@),
        separators().len() == headers().len(),
        separators()[index].last() == ':' <==> right_aligned()[index],
        text::has_suffix(screen_cell(value, width, true), value),
        value.is_prefix_of(screen_cell(value, width, false)),
        screen_cell(value, width, true).len() == screen_cell(value, width, false).len(),
        columns(value) <= width ==> screen_cell(value, width, true).len() - value.len() == width
            - columns(value),
{
    headers_differ();
    reveal_strlit("---:");
    reveal_strlit("---");
    let right = screen_cell(value, width, true);
    assert(right.skip(right.len() - value.len()) == value);
    assert(separators()[index] == if right_aligned()[index] {
        "---:"@
    } else {
        "---"@
    });
}

} // verus!

//! Colored TOML output.
//!
//! A small writer that renders structured, human-readable key/value output (schema dumps, run
//! summaries, ...) as valid TOML, optionally painted with a truecolor palette. It knows nothing of
//! what it prints, so that other tools built on FWOB can render their own summaries in the same
//! style.
//!
//! ```
//! use fwob::toml::TomlWriter;
//!
//! let mut w = TomlWriter::new(String::new(), false);
//! w.section("summary");
//! w.kv_num("bars", 1552);
//! w.kv_float("mean", "0.000479");
//! assert_eq!(w.into_inner(), "[summary]\nbars = 1552\nmean = 0.000479\n");
//! ```

use crate::key;
use crate::key::Key;
use crate::number;
use crate::text;
use vstd::prelude::*;
use vstd::string::*;

mod sealed;

verus! {

/// `words` between the escape codes that paint them, or as they are.
pub open spec fn painted(color: bool, code: Seq<char>, words: Seq<char>) -> Seq<char> {
    if color {
        "\x1b["@ + code + "m"@ + words + "\x1b[0m"@
    } else {
        words
    }
}

/// Puts `words` between the escape codes that paint them, or leaves them as they are.
pub fn paint(color: bool, code: &str, words: &str) -> (result: String)
    ensures
        result@ == painted(color, code@, words@),
{
    if color {
        let mut result: String = "\x1b[".to_owned();
        result.append(code);
        result.append("m");
        result.append(words);
        result.append("\x1b[0m");
        result
    } else {
        words.to_owned()
    }
}

/// The integer types that [`TomlWriter::kv_num`] accepts.
///
/// Sealed: implemented for every primitive integer, and for nothing outside of this library. The
/// bound exists so that a text cannot be written as an unquoted value.
pub trait Integer: sealed::Sealed + Sized {
    /// The number that is meant.
    spec fn value(self) -> int;

    /// Appends the decimal text of the number.
    fn push_text(self, out: &mut String)
        ensures
            final(out)@ == old(out)@ + number::integer_text(self.value()),
    ;
}

impl Integer for u8 {
    open spec fn value(self) -> int {
        self as int
    }

    fn push_text(self, out: &mut String) {
        number::push_decimal(out, self as u128);
    }
}

impl Integer for u16 {
    open spec fn value(self) -> int {
        self as int
    }

    fn push_text(self, out: &mut String) {
        number::push_decimal(out, self as u128);
    }
}

impl Integer for u32 {
    open spec fn value(self) -> int {
        self as int
    }

    fn push_text(self, out: &mut String) {
        number::push_decimal(out, self as u128);
    }
}

impl Integer for u64 {
    open spec fn value(self) -> int {
        self as int
    }

    fn push_text(self, out: &mut String) {
        number::push_decimal(out, self as u128);
    }
}

impl Integer for u128 {
    open spec fn value(self) -> int {
        self as int
    }

    fn push_text(self, out: &mut String) {
        number::push_decimal(out, self);
    }
}

impl Integer for usize {
    open spec fn value(self) -> int {
        self as int
    }

    fn push_text(self, out: &mut String) {
        number::push_decimal(out, self as u128);
    }
}

impl Integer for i8 {
    open spec fn value(self) -> int {
        self as int
    }

    fn push_text(self, out: &mut String) {
        number::push_integer(out, self as i128);
    }
}

impl Integer for i16 {
    open spec fn value(self) -> int {
        self as int
    }

    fn push_text(self, out: &mut String) {
        number::push_integer(out, self as i128);
    }
}

impl Integer for i32 {
    open spec fn value(self) -> int {
        self as int
    }

    fn push_text(self, out: &mut String) {
        number::push_integer(out, self as i128);
    }
}

impl Integer for i64 {
    open spec fn value(self) -> int {
        self as int
    }

    fn push_text(self, out: &mut String) {
        number::push_integer(out, self as i128);
    }
}

impl Integer for i128 {
    open spec fn value(self) -> int {
        self as int
    }

    fn push_text(self, out: &mut String) {
        number::push_integer(out, self);
    }
}

impl Integer for isize {
    open spec fn value(self) -> int {
        self as int
    }

    fn push_text(self, out: &mut String) {
        number::push_integer(out, self as i128);
    }
}

/// Whether a character may not stand in a TOML document unless it is escaped, but for tabs and line
/// ends where those may.
pub open spec fn is_control(ch: char) -> bool {
    (ch as u32) < 0x20 || ch as u32 == 0x7F
}

/// What stands for a control character by its number.
pub open spec fn numbered_char(ch: char) -> Seq<char> {
    "\\u00"@ + number::hex_byte(ch as u8)
}

/// What stands for one character inside a quoted string.
pub open spec fn escaped_char(ch: char) -> Seq<char> {
    if ch == '\\' {
        "\\\\"@
    } else if ch == '"' {
        "\\\""@
    } else if ch == '\n' {
        "\\n"@
    } else if ch == '\r' {
        "\\r"@
    } else if ch == '\t' {
        "\\t"@
    } else if is_control(ch) {
        numbered_char(ch)
    } else {
        seq![ch]
    }
}

/// What stands for a text inside a quoted string.
pub open spec fn escaped(value: Seq<char>) -> Seq<char>
    decreases value.len(),
{
    if value.len() == 0 {
        Seq::empty()
    } else {
        escaped(value.drop_last()) + escaped_char(value.last())
    }
}

/// Whether a text starts with three quotes.
pub open spec fn starts_triple(value: Seq<char>) -> bool {
    value.len() >= 3 && value[0] == '"' && value[1] == '"' && value[2] == '"'
}

/// Whether a text starts with the return of a line end, where a line end follows the text.
pub open spec fn starts_line_end(value: Seq<char>) -> bool {
    value.len() > 0 && value[0] == '\r' && (value.len() == 1 || value[1] == '\n')
}

/// What stands for one character inside a string of several lines: line ends and tabs stand for
/// themselves.
pub open spec fn escaped_line_char(ch: char) -> Seq<char> {
    if ch == '\\' {
        "\\\\"@
    } else if ch == '\r' {
        "\\r"@
    } else if is_control(ch) && ch != '\n' && ch != '\t' {
        numbered_char(ch)
    } else {
        seq![ch]
    }
}

/// What stands for a text inside a string of several lines, in front of a line end: three quotes in
/// a row are escaped, and a return stands for itself where it belongs to a line end.
pub open spec fn escaped_lines(value: Seq<char>) -> Seq<char>
    decreases value.len(),
{
    if value.len() == 0 {
        Seq::empty()
    } else if starts_triple(value) {
        "\\\"\\\"\\\""@ + escaped_lines(value.skip(3))
    } else if starts_line_end(value) {
        seq!['\r'] + escaped_lines(value.skip(1))
    } else {
        escaped_line_char(value[0]) + escaped_lines(value.skip(1))
    }
}

/// Whether a character may not stand in a TOML document unless it is escaped.
fn must_be_escaped(ch: char) -> (result: bool)
    ensures
        result == is_control(ch),
{
    (ch as u32) < 0x20 || ch as u32 == 0x7F
}

/// Appends what stands for a control character by its number.
fn push_numbered(out: &mut String, ch: char)
    requires
        is_control(ch),
    ensures
        final(out)@ == old(out)@ + numbered_char(ch),
{
    let ghost before = out@;
    out.append("\\u00");
    number::push_hex_byte(out, ch as u8);
    assert(out@ == before + numbered_char(ch));
}

/// What stands for a text inside a quoted string.
pub fn escape_string(value: &str) -> (result: String)
    ensures
        result@ == escaped(value@),
{
    let chars: Vec<char> = text::chars_of(value);
    let mut result: String = String::new();
    let mut i: usize = 0;
    assert(chars@.take(0) == Seq::<char>::empty());
    assert(result@ == escaped(chars@.take(0)));
    while i < chars.len()
        invariant
            i <= chars@.len(),
            result@ == escaped(chars@.take(i as int)),
        decreases chars@.len() - i,
    {
        let ch: char = chars[i];
        if ch == '\\' {
            result.append("\\\\");
        } else if ch == '"' {
            result.append("\\\"");
        } else if ch == '\n' {
            result.append("\\n");
        } else if ch == '\r' {
            result.append("\\r");
        } else if ch == '\t' {
            result.append("\\t");
        } else if must_be_escaped(ch) {
            push_numbered(&mut result, ch);
        } else {
            result.push(ch);
        }
        i = i + 1;
        assert(chars@.take(i as int).drop_last() == chars@.take(i - 1));
        assert(result@ == escaped(chars@.take(i as int)));
    }
    assert(chars@.take(i as int) == value@);
    result
}

/// What stands for a text inside a string of several lines, in front of a line end.
pub fn escape_multiline(value: &str) -> (result: String)
    ensures
        result@ == escaped_lines(value@),
{
    let chars: Vec<char> = text::chars_of(value);
    let total: usize = chars.len();
    let mut result: String = String::new();
    let mut i: usize = 0;
    assert(chars@.skip(0) == chars@);
    assert(result@ + escaped_lines(chars@) == escaped_lines(chars@));
    while i < total
        invariant
            i <= total == chars@.len(),
            result@ + escaped_lines(chars@.skip(i as int)) == escaped_lines(chars@),
        decreases total - i,
    {
        let ghost rest = chars@.skip(i as int);
        let ghost before = result@;
        if total - i >= 3 && chars[i] == '"' && chars[i + 1] == '"' && chars[i + 2] == '"' {
            result.append("\\\"\\\"\\\"");
            i = i + 3;
            assert(rest.skip(3) == chars@.skip(i as int));
        } else if chars[i] == '\r' && (total - i == 1 || chars[i + 1] == '\n') {
            result.push('\r');
            assert(result@ == before + seq!['\r']);
            i = i + 1;
            assert(rest.skip(1) == chars@.skip(i as int));
        } else {
            let ch: char = chars[i];
            if ch == '\\' {
                result.append("\\\\");
            } else if ch == '\r' {
                result.append("\\r");
            } else if must_be_escaped(ch) && ch != '\n' && ch != '\t' {
                push_numbered(&mut result, ch);
            } else {
                result.push(ch);
            }
            assert(result@ == before + escaped_line_char(ch));
            i = i + 1;
            assert(rest.skip(1) == chars@.skip(i as int));
        }
        assert(result@ + escaped_lines(chars@.skip(i as int)) == before + escaped_lines(rest));
    }
    assert(chars@.skip(i as int) == Seq::<char>::empty());
    assert(result@ == escaped_lines(chars@));
    result
}

/// The character that an escape at the start of a text denotes, and how many characters the escape
/// takes: `None` where no escape stands there.
pub open spec fn escape_value(source: Seq<char>) -> Option<(char, int)> {
    if source.len() < 2 || source[0] != '\\' {
        None
    } else if source[1] == 'n' {
        Some(('\n', 2))
    } else if source[1] == 'r' {
        Some(('\r', 2))
    } else if source[1] == 't' {
        Some(('\t', 2))
    } else if source[1] == 'b' {
        Some(('\u{8}', 2))
    } else if source[1] == 'f' {
        Some(('\u{c}', 2))
    } else if source[1] == '"' || source[1] == '\\' {
        Some((source[1], 2))
    } else if source[1] == 'u' && source.len() >= 6 {
        match number::scalar_value(source.subrange(2, 6)) {
            Some(ch) => Some((ch, 6)),
            None => None,
        }
    } else if source[1] == 'U' && source.len() >= 10 {
        match number::scalar_value(source.subrange(2, 10)) {
            Some(ch) => Some((ch, 10)),
            None => None,
        }
    } else {
        None
    }
}

/// The text that a quoted string denotes, read from behind its opening quote: `None` where it does
/// not end in a quote, ends before its last character, or holds what a quoted string cannot hold.
pub open spec fn quoted_value(source: Seq<char>) -> Option<Seq<char>>
    decreases source.len(),
{
    if source.len() == 0 {
        None
    } else if source[0] == '"' {
        if source.len() == 1 {
            Some(Seq::empty())
        } else {
            None
        }
    } else if source[0] == '\\' {
        match escape_value(source) {
            Some((ch, length)) => match quoted_value(source.skip(length)) {
                Some(rest) => Some(seq![ch] + rest),
                None => None,
            },
            None => None,
        }
    } else if is_control(source[0]) && source[0] != '\t' {
        None
    } else {
        match quoted_value(source.skip(1)) {
            Some(rest) => Some(seq![source[0]] + rest),
            None => None,
        }
    }
}

/// A quoted string denotes the text that was written, whatever the text holds.
pub proof fn string_reads_back(value: Seq<char>)
    ensures
        quoted_value(escaped(value) + "\""@) == Some(value),
{
    reveal_strlit("\"");
    assert(quoted_value("\""@) == Some(Seq::<char>::empty())) by {
        assert("\""@.len() == 1);
        assert("\""@[0] == '"');
    }
    escaped_prefix_reads_back(value, "\""@, Seq::empty());
    assert(value + Seq::<char>::empty() == value);
}

proof fn numbered_char_reads_back(ch: char, rest: Seq<char>)
    requires
        is_control(ch),
    ensures
        escape_value(numbered_char(ch) + rest) == Some((ch, 6int)),
        (numbered_char(ch) + rest).skip(6) == rest,
{
    reveal_strlit("\\u00");
    let source = numbered_char(ch) + rest;
    assert(source.subrange(2, 6) == seq!['0', '0'] + number::hex_byte(ch as u8));
    number::hex_byte_reads_back(ch as u8);
    assert(source.skip(6) == rest);
}

proof fn escaped_prefix_reads_back(value: Seq<char>, rest: Seq<char>, read: Seq<char>)
    requires
        quoted_value(rest) == Some(read),
    ensures
        quoted_value(escaped(value) + rest) == Some(value + read),
    decreases value.len(),
{
    if value.len() == 0 {
        assert(escaped(value) + rest == rest);
        assert(value + read == read);
    } else {
        let shorter = value.drop_last();
        let last = value.last();
        let piece = escaped_char(last);
        reveal_strlit("\\\\");
        reveal_strlit("\\\"");
        reveal_strlit("\\n");
        reveal_strlit("\\r");
        reveal_strlit("\\t");
        reveal_strlit("\\u00");
        let tail = piece + rest;
        if piece.len() == 2 {
            assert(tail.skip(2) == rest);
        } else if piece.len() == 1 {
            assert(tail.skip(1) == rest);
        } else {
            numbered_char_reads_back(last, rest);
        }
        assert(quoted_value(tail) == Some(seq![last] + read));
        escaped_prefix_reads_back(shorter, tail, seq![last] + read);
        assert(escaped(value) + rest == escaped(shorter) + tail);
        assert(shorter + (seq![last] + read) == value + read);
    }
}

/// The text that a string of several lines denotes, read from behind the line end of its opening
/// quotes: `None` where it does not end in three quotes, ends before its last character, or holds
/// what such a string cannot hold. Line ends are read as they stand. A backslash at the end of a line
/// is not read.
pub open spec fn lines_value(source: Seq<char>) -> Option<Seq<char>>
    decreases source.len(),
{
    if source.len() == 0 {
        None
    } else if starts_triple(source) {
        if source.len() == 3 {
            Some(Seq::empty())
        } else {
            None
        }
    } else if source[0] == '\\' {
        match escape_value(source) {
            Some((ch, length)) => match lines_value(source.skip(length)) {
                Some(rest) => Some(seq![ch] + rest),
                None => None,
            },
            None => None,
        }
    } else if is_control(source[0]) && source[0] != '\n' && source[0] != '\t' && !(source.len() >= 2
        && source[0] == '\r' && source[1] == '\n') {
        None
    } else {
        match lines_value(source.skip(1)) {
            Some(rest) => Some(seq![source[0]] + rest),
            None => None,
        }
    }
}

/// A string of several lines denotes the text that was written, with a line end behind it where it
/// has none.
pub proof fn lines_read_back(value: Seq<char>)
    ensures
        lines_value(escaped_lines(value) + closing(value) + "\"\"\""@) == Some(
            value + closing(value),
        ),
{
    let end = closing(value) + "\"\"\""@;
    reveal_strlit("\n");
    reveal_strlit("\"\"\"");
    let quotes = "\"\"\""@;
    assert(quotes.len() == 3);
    assert(starts_triple(quotes));
    assert(lines_value(quotes) == Some(Seq::<char>::empty()));
    if value.len() > 0 && value.last() == '\n' {
        assert(end == quotes);
        lines_prefix_reads_back(value, quotes, Seq::empty());
        assert(escaped_lines(value) + closing(value) + quotes == escaped_lines(value) + quotes);
        assert(value + Seq::<char>::empty() == value + closing(value));
    } else {
        assert(end == seq!['\n'] + quotes);
        assert(end.skip(1) == quotes);
        assert(lines_value(end) == Some(seq!['\n'] + Seq::<char>::empty()));
        lines_prefix_reads_back(value, end, seq!['\n'] + Seq::<char>::empty());
        assert(escaped_lines(value) + closing(value) + quotes == escaped_lines(value) + end);
        assert(value + (seq!['\n'] + Seq::<char>::empty()) == value + closing(value));
    }
}

#[verifier::rlimit(60)]
#[verifier::spinoff_prover]
proof fn lines_prefix_reads_back(value: Seq<char>, rest: Seq<char>, read: Seq<char>)
    requires
        lines_value(rest) == Some(read),
        rest.len() > 0,
        rest[0] == '\n' || value.len() == 0 || value.last() == '\n',
    ensures
        lines_value(escaped_lines(value) + rest) == Some(value + read),
    decreases value.len(),
{
    let source = escaped_lines(value) + rest;
    if value.len() == 0 {
        assert(source == rest);
        assert(value + read == read);
    } else if starts_triple(value) {
        let tail = value.skip(3);
        lines_prefix_reads_back(tail, rest, read);
        let after = escaped_lines(tail) + rest;
        reveal_strlit("\\\"\\\"\\\"");
        let one = source.skip(2);
        let two = one.skip(2);
        assert(two.skip(2) == after);
        assert(lines_value(two) == Some(seq!['"'] + (tail + read)));
        assert(lines_value(one) == Some(seq!['"'] + (seq!['"'] + (tail + read))));
        assert(lines_value(source) == Some(seq!['"'] + (seq!['"'] + (seq!['"'] + (tail + read)))));
        assert(seq!['"'] + (seq!['"'] + (seq!['"'] + (tail + read))) == value + read);
    } else if starts_line_end(value) {
        let tail = value.skip(1);
        lines_prefix_reads_back(tail, rest, read);
        let after = escaped_lines(tail) + rest;
        assert(source == seq!['\r'] + after);
        assert(source.skip(1) == after);
        assert(seq!['\r'] + (tail + read) == value + read);
        assert(source[1] == after[0]);
        if tail.len() > 0 {
            assert(tail[0] == value[1]);
            assert(escaped_lines(tail) == seq!['\n'] + escaped_lines(tail.skip(1)));
            assert(after[0] == '\n');
        } else {
            assert(after == rest);
        }
    } else {
        let tail = value.skip(1);
        lines_prefix_reads_back(tail, rest, read);
        let after = escaped_lines(tail) + rest;
        assert(seq![value[0]] + (tail + read) == value + read);
        reveal_strlit("\\\\");
        reveal_strlit("\\r");
        reveal_strlit("\\u00");
        let piece = escaped_line_char(value[0]);
        assert(source == piece + after);
        if piece.len() == 2 {
            assert(source.skip(2) == after);
        } else if piece.len() == 6 {
            numbered_char_reads_back(value[0], after);
        } else {
            assert(source.skip(1) == after);
            if value[0] == '"' {
                starts_as_written(tail, rest);
            }
        }
    }
}

/// What is written of a text starts with a quote only where the text does, and then goes on as the
/// text does.
proof fn starts_as_written(value: Seq<char>, rest: Seq<char>)
    requires
        rest.len() > 0,
        rest[0] == '\n' || (value.len() > 0 && value.last() == '\n'),
        !(value.len() >= 2 && value[0] == '"' && value[1] == '"'),
    ensures
        ({
            let source = escaped_lines(value) + rest;
            !(source.len() >= 2 && source[0] == '"' && source[1] == '"')
        }),
{
    let source = escaped_lines(value) + rest;
    reveal_strlit("\\\\");
    reveal_strlit("\\r");
    reveal_strlit("\\u00");
    reveal_strlit("\\\"\\\"\\\"");
    if value.len() == 0 {
        assert(source == rest);
    } else if value[0] == '"' {
        let tail = value.skip(1);
        let after = escaped_lines(tail) + rest;
        assert(source == seq![value[0]] + after);
        assert(source[1] == after[0]);
        if tail.len() > 0 {
            assert(tail[0] == value[1]);
            assert(after[0] == escaped_lines(tail)[0]);
        } else {
            assert(after == rest);
        }
    } else {
        assert(source[0] == escaped_lines(value)[0]);
    }
}

/// The line end that a text of several lines lacks.
pub open spec fn closing(value: Seq<char>) -> Seq<char> {
    if value.len() > 0 && value.last() == '\n' {
        Seq::empty()
    } else {
        "\n"@
    }
}

/// What stands for numbers with a fraction.
pub open spec fn float_words(rendered: Seq<Seq<char>>) -> Seq<Seq<char>> {
    rendered.map_values(|value: Seq<char>| number::toml_float(value))
}

/// Whether a text can be a key as it is: letters and digits of ASCII, underscores and dashes.
pub open spec fn is_bare_key(name: Seq<char>) -> bool {
    &&& name.len() > 0
    &&& forall|i: int| 0 <= i < name.len() ==> is_bare(#[trigger] name[i])
}

/// Whether a character can stand in a key that is not quoted.
pub open spec fn is_bare(ch: char) -> bool {
    'a' <= ch <= 'z' || 'A' <= ch <= 'Z' || '0' <= ch <= '9' || ch == '_' || ch == '-'
}

/// What stands for a key of any name: the name, in quotes where it cannot stand without.
pub open spec fn key_word(name: Seq<char>) -> Seq<char> {
    if is_bare_key(name) {
        name
    } else {
        "\""@ + escaped(name) + "\""@
    }
}

/// What stands for a key of any name.
pub fn quote_key(name: &str) -> (result: String)
    ensures
        result@ == key_word(name@),
{
    let chars: Vec<char> = text::chars_of(name);
    let mut bare: bool = chars.len() > 0;
    let mut i: usize = 0;
    while i < chars.len()
        invariant
            i <= chars@.len(),
            bare <==> chars@.len() > 0 && forall|j: int| 0 <= j < i ==> is_bare(#[trigger] chars@[j]),
        decreases chars@.len() - i,
    {
        let ch: char = chars[i];
        if !(('a' <= ch && ch <= 'z') || ('A' <= ch && ch <= 'Z') || ('0' <= ch && ch <= '9') || ch
            == '_' || ch == '-') {
            assert(!is_bare(chars@[i as int]));
            bare = false;
        }
        i = i + 1;
    }
    if bare {
        name.to_owned()
    } else {
        let escapes: String = escape_string(name);
        text::concat3("\"", escapes.as_str(), "\"")
    }
}

/// A document as far as it is written.
#[verifier::ext_equal]
pub struct TomlModel {
    pub text: Seq<char>,
    pub color: bool,
}

impl TomlModel {
    /// The document with `words` behind it.
    pub open spec fn plus(self, words: Seq<char>) -> TomlModel {
        TomlModel { text: self.text + words, ..self }
    }

    /// The document with a table header behind it.
    pub open spec fn section(self, name: Seq<char>) -> TomlModel {
        self.plus(painted(self.color, "38;2;210;168;255"@, "["@ + name + "]"@) + "\n"@)
    }

    /// The document with the header of one more table of an array behind it.
    pub open spec fn array_section(self, name: Seq<char>) -> TomlModel {
        self.plus(painted(self.color, "38;2;210;168;255"@, "[["@ + name + "]]"@) + "\n"@)
    }

    /// The document with an empty line behind it.
    pub open spec fn blank(self) -> TomlModel {
        self.plus("\n"@)
    }

    /// The document with `key = value` behind it.
    pub open spec fn kv_raw(self, key: Seq<char>, value: Seq<char>) -> TomlModel {
        self.plus(
            painted(self.color, "38;2;121;192;255"@, key) + " = "@ + painted(
                self.color,
                "38;2;255;166;87"@,
                value,
            ) + "\n"@,
        )
    }

    /// The document with `key = "value"` behind it.
    pub open spec fn kv_str(self, key: Seq<char>, value: Seq<char>) -> TomlModel {
        self.plus(
            painted(self.color, "38;2;121;192;255"@, key) + " = "@ + painted(
                self.color,
                "38;2;165;214;255"@,
                "\""@ + escaped(value) + "\""@,
            ) + "\n"@,
        )
    }

    /// The document with `key = value` behind it for an integer.
    pub open spec fn kv_num(self, key: Seq<char>, value: int) -> TomlModel {
        self.kv_raw(key, number::integer_text(value))
    }

    /// The document with `key = true` or `key = false` behind it.
    pub open spec fn kv_bool(self, key: Seq<char>, value: bool) -> TomlModel {
        self.kv_raw(
            key,
            if value {
                "true"@
            } else {
                "false"@
            },
        )
    }

    /// The document with `key = value` behind it for a number with a fraction.
    pub open spec fn kv_float(self, key: Seq<char>, rendered: Seq<char>) -> TomlModel {
        self.kv_raw(key, number::toml_float(rendered))
    }

    /// The document with `key = [v0, v1, ...]` behind it for numbers with a fraction.
    pub open spec fn kv_float_array(self, key: Seq<char>, rendered: Seq<Seq<char>>) -> TomlModel {
        self.kv_raw(key, "["@ + text::joined(float_words(rendered), ", "@) + "]"@)
    }

    /// The document with a string of several lines behind it.
    pub open spec fn kv_multiline(self, key: Seq<char>, value: Seq<char>) -> TomlModel {
        self.plus(
            painted(self.color, "38;2;121;192;255"@, key) + " = \"\"\"\n"@ + escaped_lines(value)
                + closing(value) + "\"\"\"\n"@,
        )
    }
}

/// Whether a text ends inside a color escape, which starts with the escape character and ends with
/// the next `m`.
pub open spec fn ends_in_color(text: Seq<char>) -> bool
    decreases text.len(),
{
    if text.len() == 0 {
        false
    } else if ends_in_color(text.drop_last()) {
        text.last() != 'm'
    } else {
        text.last() == '\x1b'
    }
}

/// A text without its color escapes.
pub open spec fn without_color(text: Seq<char>) -> Seq<char>
    decreases text.len(),
{
    if text.len() == 0 {
        Seq::empty()
    } else {
        let before = without_color(text.drop_last());
        if ends_in_color(text.drop_last()) || text.last() == '\x1b' {
            before
        } else {
            before.push(text.last())
        }
    }
}

/// Whether no color escape starts in a text.
pub open spec fn is_colorless(text: Seq<char>) -> bool {
    forall|i: int| 0 <= i < text.len() ==> #[trigger] text[i] != '\x1b'
}

/// Whether a text holds no control characters.
pub open spec fn is_visible(text: Seq<char>) -> bool {
    forall|i: int| 0 <= i < text.len() ==> !is_control(#[trigger] text[i])
}

/// How many characters at the start of a text can stand in a key that is not quoted.
pub open spec fn bare_length(source: Seq<char>) -> int
    decreases source.len(),
{
    if source.len() > 0 && is_bare(source[0]) {
        1 + bare_length(source.skip(1))
    } else {
        0
    }
}

/// The key and the text that a line of the form `key = "text"` denotes; `None` where it has another
/// form, holds a control character in front of its end, or is more than one line.
pub open spec fn string_pair(line: Seq<char>) -> Option<(Seq<char>, Seq<char>)> {
    let length = bare_length(line);
    let start = length + 4;
    let end = line.len() - 1;
    if length > 0 && start < end && line.subrange(length, start) == " = \""@ && line[end] == '\n'
        && is_visible(line.take(end)) {
        match quoted_value(line.subrange(start, end)) {
            Some(value) => Some((line.take(length), value)),
            None => None,
        }
    } else {
        None
    }
}

/// A string is written as one line that denotes its key and its text, whatever the text holds.
pub proof fn string_line_reads_back(w: TomlModel, key: Seq<char>, value: Seq<char>)
    requires
        !w.color,
        is_bare_key(key),
    ensures
        w.text.is_prefix_of(w.kv_str(key, value).text),
        string_pair(w.kv_str(key, value).text.skip(w.text.len() as int)) == Some((key, value)),
{
    reveal_strlit("\"");
    reveal_strlit(" = ");
    reveal_strlit(" = \"");
    reveal_strlit("\n");
    let quoted = escaped(value) + "\""@;
    let tail = " = \""@ + quoted + "\n"@;
    let line = key + tail;
    let length = key.len() as int;
    assert(w.kv_str(key, value).text == w.text + line);
    assert((w.text + line).skip(w.text.len() as int) == line);
    bare_key_is_measured(key, tail);
    assert(line.subrange(length, length + 4) == " = \""@);
    assert(line.subrange(length + 4, line.len() - 1) == quoted);
    assert(line.take(length) == key);
    escaped_is_visible(value);
    let shown = line.take(line.len() - 1);
    assert forall|i: int| 0 <= i < shown.len() implies !is_control(#[trigger] shown[i]) by {
        if i < length {
            assert(is_bare(key[i]));
        } else if i >= length + 4 && i < length + 4 + escaped(value).len() {
            assert(shown[i] == escaped(value)[i - length - 4]);
        }
    }
    string_reads_back(value);
}

proof fn bare_key_is_measured(key: Seq<char>, tail: Seq<char>)
    requires
        forall|i: int| 0 <= i < key.len() ==> is_bare(#[trigger] key[i]),
        tail.len() > 0,
        !is_bare(tail[0]),
    ensures
        bare_length(key + tail) == key.len(),
    decreases key.len(),
{
    if key.len() == 0 {
        assert(key + tail == tail);
    } else {
        assert(is_bare(key[0]));
        let rest = key.skip(1);
        assert forall|i: int| 0 <= i < rest.len() implies is_bare(#[trigger] rest[i]) by {
            assert(is_bare(key[i + 1]));
        }
        bare_key_is_measured(rest, tail);
        assert((key + tail).skip(1) == rest + tail);
    }
}

impl TomlModel {
    /// The document without its color escapes.
    pub open spec fn plain(self) -> TomlModel {
        TomlModel { text: without_color(self.text), color: false }
    }
}

/// Taking the color escapes out of a document gives the document that is written without color, line
/// by line: names of tables, keys and numbers hold no color escapes, and strings may hold anything.
pub proof fn color_washes_off(
    w: TomlModel,
    name: Seq<char>,
    raw: Seq<char>,
    value: Seq<char>,
)
    requires
        w.color,
        !ends_in_color(w.text),
        is_colorless(name),
        is_colorless(raw),
    ensures
        w.section(name).plain() == w.plain().section(name),
        w.array_section(name).plain() == w.plain().array_section(name),
        w.blank().plain() == w.plain().blank(),
        w.kv_raw(name, raw).plain() == w.plain().kv_raw(name, raw),
        w.kv_str(name, value).plain() == w.plain().kv_str(name, value),
        w.kv_multiline(name, value).plain() == w.plain().kv_multiline(name, value),
        !ends_in_color(w.section(name).text),
        !ends_in_color(w.array_section(name).text),
        !ends_in_color(w.blank().text),
        !ends_in_color(w.kv_raw(name, raw).text),
        !ends_in_color(w.kv_str(name, value).text),
        !ends_in_color(w.kv_multiline(name, value).text),
{
    heading_washes_off(w, name);
    number_washes_off(w, name, raw);
    string_washes_off(w, name, value);
    lines_wash_off(w, name, value);
}

proof fn heading_washes_off(w: TomlModel, name: Seq<char>)
    requires
        w.color,
        !ends_in_color(w.text),
        is_colorless(name),
    ensures
        w.section(name).plain() == w.plain().section(name),
        w.array_section(name).plain() == w.plain().array_section(name),
        w.blank().plain() == w.plain().blank(),
        !ends_in_color(w.section(name).text),
        !ends_in_color(w.array_section(name).text),
        !ends_in_color(w.blank().text),
{
    reveal_strlit("\n");
    reveal_strlit("[");
    reveal_strlit("]");
    reveal_strlit("[[");
    reveal_strlit("]]");
    reveal_strlit("38;2;210;168;255");
    let purple = "38;2;210;168;255"@;
    paint_washes_off(w.text, purple, "["@ + name + "]"@, "\n"@);
    paint_washes_off(w.text, purple, "[["@ + name + "]]"@, "\n"@);
    plain_text_stays(w.text, "\n"@);
}

proof fn number_washes_off(w: TomlModel, name: Seq<char>, raw: Seq<char>)
    requires
        w.color,
        !ends_in_color(w.text),
        is_colorless(name),
        is_colorless(raw),
    ensures
        w.kv_raw(name, raw).plain() == w.plain().kv_raw(name, raw),
        !ends_in_color(w.kv_raw(name, raw).text),
{
    reveal_strlit("\n");
    reveal_strlit(" = ");
    reveal_strlit("38;2;121;192;255");
    reveal_strlit("38;2;255;166;87");
    let blue = "38;2;121;192;255"@;
    let orange = "38;2;255;166;87"@;
    paint_washes_off(w.text, blue, name, " = "@);
    let named = w.text + (painted(true, blue, name) + " = "@);
    paint_washes_off(named, orange, raw, "\n"@);
    assert(w.kv_raw(name, raw).text == named + (painted(true, orange, raw) + "\n"@));
    assert(w.plain().kv_raw(name, raw).text == without_color(named) + (raw + "\n"@));
}

proof fn string_washes_off(w: TomlModel, name: Seq<char>, value: Seq<char>)
    requires
        w.color,
        !ends_in_color(w.text),
        is_colorless(name),
    ensures
        w.kv_str(name, value).plain() == w.plain().kv_str(name, value),
        !ends_in_color(w.kv_str(name, value).text),
{
    reveal_strlit("\n");
    reveal_strlit(" = ");
    reveal_strlit("\"");
    reveal_strlit("38;2;121;192;255");
    reveal_strlit("38;2;165;214;255");
    let blue = "38;2;121;192;255"@;
    let green = "38;2;165;214;255"@;
    let quoted = "\""@ + escaped(value) + "\""@;
    escaped_is_visible(value);
    paint_washes_off(w.text, blue, name, " = "@);
    let named = w.text + (painted(true, blue, name) + " = "@);
    paint_washes_off(named, green, quoted, "\n"@);
    assert(w.kv_str(name, value).text == named + (painted(true, green, quoted) + "\n"@));
    assert(w.plain().kv_str(name, value).text == without_color(named) + (quoted + "\n"@));
}

proof fn lines_wash_off(w: TomlModel, name: Seq<char>, value: Seq<char>)
    requires
        w.color,
        !ends_in_color(w.text),
        is_colorless(name),
    ensures
        w.kv_multiline(name, value).plain() == w.plain().kv_multiline(name, value),
        !ends_in_color(w.kv_multiline(name, value).text),
{
    reveal_strlit(" = \"\"\"\n");
    reveal_strlit("\"\"\"\n");
    reveal_strlit("\n");
    reveal_strlit("38;2;121;192;255");
    let blue = "38;2;121;192;255"@;
    let opening = " = \"\"\"\n"@;
    paint_washes_off(w.text, blue, name, opening);
    let opened = w.text + (painted(true, blue, name) + opening);
    escaped_lines_are_colorless(value);
    let body = escaped_lines(value) + closing(value) + "\"\"\"\n"@;
    plain_text_stays(opened, body);
    assert(w.kv_multiline(name, value).text == opened + body);
    assert(w.plain().kv_multiline(name, value).text == without_color(opened) + body);
}

proof fn plain_text_stays(text: Seq<char>, words: Seq<char>)
    requires
        !ends_in_color(text),
        is_colorless(words),
    ensures
        !ends_in_color(text + words),
        without_color(text + words) == without_color(text) + words,
    decreases words.len(),
{
    if words.len() == 0 {
        assert(text + words == text);
        assert(without_color(text) + words == without_color(text));
    } else {
        let shorter = words.drop_last();
        assert forall|i: int| 0 <= i < shorter.len() implies #[trigger] shorter[i] != '\x1b' by {
            assert(words[i] == shorter[i]);
        }
        plain_text_stays(text, shorter);
        assert((text + words).drop_last() == text + shorter);
        assert(without_color(text + words) == without_color(text) + words);
    }
}

proof fn code_is_skipped(text: Seq<char>, code: Seq<char>)
    requires
        ends_in_color(text),
        forall|i: int| 0 <= i < code.len() ==> #[trigger] code[i] != 'm',
    ensures
        ends_in_color(text + code),
        without_color(text + code) == without_color(text),
    decreases code.len(),
{
    if code.len() == 0 {
        assert(text + code == text);
    } else {
        let shorter = code.drop_last();
        assert forall|i: int| 0 <= i < shorter.len() implies #[trigger] shorter[i] != 'm' by {
            assert(code[i] == shorter[i]);
        }
        code_is_skipped(text, shorter);
        assert((text + code).drop_last() == text + shorter);
    }
}

proof fn escape_is_skipped(text: Seq<char>, code: Seq<char>)
    requires
        !ends_in_color(text),
        forall|i: int| 0 <= i < code.len() ==> #[trigger] code[i] != 'm',
    ensures
        ({
            let after = text + (seq!['\x1b'] + code + seq!['m']);
            !ends_in_color(after) && without_color(after) == without_color(text)
        }),
{
    let opened = text.push('\x1b');
    assert(opened.drop_last() == text);
    code_is_skipped(opened, code);
    let after = text + (seq!['\x1b'] + code + seq!['m']);
    assert(after.drop_last() == opened + code);
}

proof fn paint_washes_off(text: Seq<char>, code: Seq<char>, words: Seq<char>, end: Seq<char>)
    requires
        !ends_in_color(text),
        forall|i: int| 0 <= i < code.len() ==> #[trigger] code[i] != 'm',
        is_colorless(words),
        is_colorless(end),
    ensures
        !ends_in_color(text + (painted(true, code, words) + end)),
        without_color(text + (painted(true, code, words) + end)) == without_color(text) + (painted(
            false,
            code,
            words,
        ) + end),
{
    reveal_strlit("\x1b[");
    reveal_strlit("m");
    reveal_strlit("\x1b[0m");
    let bracketed = seq!['['] + code;
    escape_is_skipped(text, bracketed);
    let opened = text + (seq!['\x1b'] + bracketed + seq!['m']);
    plain_text_stays(opened, words);
    escape_is_skipped(opened + words, seq!['[', '0']);
    let closed = opened + words + (seq!['\x1b'] + seq!['[', '0'] + seq!['m']);
    plain_text_stays(closed, end);
    assert(text + (painted(true, code, words) + end) == closed + end);
    assert(without_color(text) + words + end == without_color(text) + (words + end));
}

proof fn numbered_char_is_visible(ch: char)
    requires
        is_control(ch),
    ensures
        is_visible(numbered_char(ch)),
{
    reveal_strlit("\\u00");
    let byte = ch as u8;
    assert(byte / 16 < 16 && byte % 16 < 16);
    assert forall|i: int| 0 <= i < numbered_char(ch).len() implies !is_control(
        #[trigger] numbered_char(ch)[i],
    ) by {}
}

proof fn escaped_is_visible(value: Seq<char>)
    ensures
        is_visible(escaped(value)),
    decreases value.len(),
{
    if value.len() > 0 {
        escaped_is_visible(value.drop_last());
        reveal_strlit("\\\\");
        reveal_strlit("\\\"");
        reveal_strlit("\\n");
        reveal_strlit("\\r");
        reveal_strlit("\\t");
        if is_control(value.last()) {
            numbered_char_is_visible(value.last());
        }
        let before = escaped(value.drop_last());
        let piece = escaped_char(value.last());
        assert(is_visible(piece));
        assert forall|i: int| 0 <= i < escaped(value).len() implies !is_control(
            #[trigger] escaped(value)[i],
        ) by {
            if i < before.len() {
                assert(escaped(value)[i] == before[i]);
            } else {
                assert(escaped(value)[i] == piece[i - before.len()]);
            }
        }
    }
}

proof fn escaped_lines_are_colorless(value: Seq<char>)
    ensures
        is_colorless(escaped_lines(value)),
    decreases value.len(),
{
    if value.len() > 0 {
        reveal_strlit("\\\\");
        reveal_strlit("\\r");
        reveal_strlit("\\\"\\\"\\\"");
        let piece = if starts_triple(value) {
            "\\\"\\\"\\\""@
        } else if starts_line_end(value) {
            seq!['\r']
        } else {
            escaped_line_char(value[0])
        };
        let after = if starts_triple(value) {
            escaped_lines(value.skip(3))
        } else {
            escaped_lines(value.skip(1))
        };
        if starts_triple(value) {
            escaped_lines_are_colorless(value.skip(3));
        } else {
            escaped_lines_are_colorless(value.skip(1));
            if is_control(value[0]) {
                numbered_char_is_visible(value[0]);
            }
        }
        assert(is_colorless(piece));
        assert(escaped_lines(value) == piece + after);
        assert forall|i: int| 0 <= i < escaped_lines(value).len() implies #[trigger] escaped_lines(
            value,
        )[i] != '\x1b' by {
            if i < piece.len() {
                assert(escaped_lines(value)[i] == piece[i]);
            } else {
                assert(escaped_lines(value)[i] == after[i - piece.len()]);
            }
        }
    }
}

/// A TOML writer that appends to a text.
///
/// `color` selects whether color escapes are written; they wrap whole tokens, so that the text
/// without them is always valid TOML, and redirected output can be read again.
pub struct TomlWriter {
    out: String,
    color: bool,
}

impl View for TomlWriter {
    type V = TomlModel;

    closed spec fn view(&self) -> TomlModel {
        TomlModel { text: self.out@, color: self.color }
    }
}

impl TomlWriter {
    /// A writer that appends to `out`.
    pub fn new(out: String, color: bool) -> (result: Self)
        ensures
            result@ == (TomlModel { text: out@, color }),
    {
        TomlWriter { out, color }
    }

    /// The text written so far.
    pub fn into_inner(self) -> (result: String)
        ensures
            result@ == self@.text,
    {
        self.out
    }

    /// A `[name]` table header.
    pub fn section(&mut self, name: &str)
        ensures
            final(self)@ == old(self)@.section(name@),
    {
        let ghost before = self@;
        let header: String = text::concat3("[", name, "]");
        let line: String = paint(self.color, "38;2;210;168;255", header.as_str());
        self.out.append(line.as_str());
        self.out.append("\n");
        assert(self@ == before.section(name@));
    }

    /// A `[[name]]` array-of-tables header.
    pub fn array_section(&mut self, name: &str)
        ensures
            final(self)@ == old(self)@.array_section(name@),
    {
        let ghost before = self@;
        let header: String = text::concat3("[[", name, "]]");
        let line: String = paint(self.color, "38;2;210;168;255", header.as_str());
        self.out.append(line.as_str());
        self.out.append("\n");
        assert(self@ == before.array_section(name@));
    }

    /// A blank separating line.
    pub fn blank(&mut self)
        ensures
            final(self)@ == old(self)@.blank(),
    {
        self.out.append("\n");
    }

    /// `key = "value"` (a quoted, escaped string).
    pub fn kv_str(&mut self, key: &str, value: &str)
        ensures
            final(self)@ == old(self)@.kv_str(key@, value@),
    {
        let ghost before = self@;
        let escapes: String = escape_string(value);
        let quoted: String = text::concat3("\"", escapes.as_str(), "\"");
        let name: String = paint(self.color, "38;2;121;192;255", key);
        let words: String = paint(self.color, "38;2;165;214;255", quoted.as_str());
        self.out.append(name.as_str());
        self.out.append(" = ");
        self.out.append(words.as_str());
        self.out.append("\n");
        assert(self@ == before.kv_str(key@, value@));
    }

    /// `key = value` for any integer.
    ///
    /// The value is written unquoted, so only integers are accepted: a text with its digits in
    /// groups would make the line unreadable. Use [`kv_str`](Self::kv_str) for text.
    pub fn kv_num<I: Integer>(&mut self, key: &str, value: I)
        ensures
            final(self)@ == old(self)@.kv_num(key@, value.value()),
    {
        let mut digits: String = String::new();
        value.push_text(&mut digits);
        assert(digits@ == number::integer_text(value.value()));
        self.kv_raw(key, digits.as_str());
    }

    /// `key = value` for a boolean.
    pub fn kv_bool(&mut self, key: &str, value: bool)
        ensures
            final(self)@ == old(self)@.kv_bool(key@, value),
    {
        self.kv_raw(
            key,
            if value {
                "true"
            } else {
                "false"
            },
        );
    }

    /// `key = value` for a [`Key`]; `rendered` is the text of a key that is no integer.
    pub fn kv_key(&mut self, key: &str, value: Key, rendered: &str)
        ensures
            final(self)@ == old(self)@.kv_raw(key@, key::key_value_text(value, rendered@)),
    {
        let words: String = key::key_value(value, rendered);
        self.kv_raw(key, words.as_str());
    }

    /// `key = value` for a number with a fraction, given by its text.
    pub fn kv_float(&mut self, key: &str, rendered: &str)
        ensures
            final(self)@ == old(self)@.kv_float(key@, rendered@),
    {
        let word: String = number::toml_float_word(rendered);
        self.kv_raw(key, word.as_str());
    }

    /// `key = [v0, v1, ...]` for numbers with a fraction, given by their texts.
    pub fn kv_float_array(&mut self, key: &str, rendered: &[String])
        ensures
            final(self)@ == old(self)@.kv_float_array(key@, text::views(rendered@)),
    {
        let mut words: Vec<String> = Vec::new();
        let mut i: usize = 0;
        while i < rendered.len()
            invariant
                i <= rendered@.len(),
                words@.len() == i,
                forall|j: int|
                    0 <= j < i ==> (#[trigger] words@[j])@ == number::toml_float(rendered@[j]@),
            decreases rendered@.len() - i,
        {
            words.push(number::toml_float_word(rendered[i].as_str()));
            i = i + 1;
        }
        assert(text::views(words@) == float_words(text::views(rendered@)));
        let values: String = text::join(words.as_slice(), ", ");
        let array: String = text::concat3("[", values.as_str(), "]");
        self.kv_raw(key, array.as_str());
    }

    /// `key = """..."""` (a string of several lines). Only the key is colored; the body is written
    /// as it is (escaped), so that large previews stay readable.
    pub fn kv_multiline(&mut self, key: &str, value: &str)
        ensures
            final(self)@ == old(self)@.kv_multiline(key@, value@),
    {
        let ghost before = self@;
        let name: String = paint(self.color, "38;2;121;192;255", key);
        let body: String = escape_multiline(value);
        let length: usize = value.unicode_len();
        self.out.append(name.as_str());
        self.out.append(" = \"\"\"\n");
        self.out.append(body.as_str());
        if length == 0 || value.get_char(length - 1) != '\n' {
            self.out.append("\n");
        }
        self.out.append("\"\"\"\n");
        assert(self@ == before.kv_multiline(key@, value@));
    }

    /// `key = value` where `value` is written as it is.
    fn kv_raw(&mut self, key: &str, value: &str)
        ensures
            final(self)@ == old(self)@.kv_raw(key@, value@),
    {
        let ghost before = self@;
        let name: String = paint(self.color, "38;2;121;192;255", key);
        let words: String = paint(self.color, "38;2;255;166;87", value);
        self.out.append(name.as_str());
        self.out.append(" = ");
        self.out.append(words.as_str());
        self.out.append("\n");
        assert(self@ == before.kv_raw(key@, value@));
    }
}

impl TomlModel {
    /// Whether the document says somewhere that a key has a value, in a line without color.
    #[verifier::opaque]
    pub open spec fn says(self, key: Seq<char>, value: Seq<char>) -> bool {
        exists|front: Seq<char>, back: Seq<char>|
            self.text == #[trigger] (front + (key + " = "@ + value + "\n"@) + back)
    }

    /// Whether the document says somewhere that a key has a text.
    pub open spec fn says_text(self, key: Seq<char>, value: Seq<char>) -> bool {
        self.says(key, "\""@ + escaped(value) + "\""@)
    }

    /// Whether the document says somewhere that a key has a number.
    pub open spec fn says_number(self, key: Seq<char>, value: int) -> bool {
        self.says(key, number::integer_text(value))
    }

    /// Whether the document says somewhere that a key is true or false.
    pub open spec fn says_truth(self, key: Seq<char>, value: bool) -> bool {
        self.says(
            key,
            if value {
                "true"@
            } else {
                "false"@
            },
        )
    }
}

/// What a document says, it goes on saying whatever is written behind it.
pub proof fn nothing_is_taken_back(w: TomlModel, words: Seq<char>)
    ensures
        forall|key: Seq<char>, value: Seq<char>| #[trigger]
            w.says(key, value) ==> w.plus(words).says(key, value),
{
    assert forall|key: Seq<char>, value: Seq<char>| #[trigger] w.says(key, value) implies w.plus(
        words,
    ).says(key, value) by {
        reveal(TomlModel::says);
        let line = key + " = "@ + value + "\n"@;
        let (front, back) = choose|front: Seq<char>, back: Seq<char>|
            w.text == #[trigger] (front + line + back);
        assert(w.text + words == front + line + (back + words));
    }
}

/// A line with a key and a value says so, and the lines in front of it are kept.
pub proof fn values_are_said(w: TomlModel, key: Seq<char>, value: Seq<char>)
    ensures
        w.kv_raw(key, value).color == w.color,
        !w.color ==> w.kv_raw(key, value).says(key, value),
        forall|k: Seq<char>, v: Seq<char>| #[trigger]
            w.says(k, v) ==> w.kv_raw(key, value).says(k, v),
{
    let line = key + " = "@ + value + "\n"@;
    nothing_is_taken_back(
        w,
        painted(w.color, "38;2;121;192;255"@, key) + " = "@ + painted(
            w.color,
            "38;2;255;166;87"@,
            value,
        ) + "\n"@,
    );
    if !w.color {
        reveal(TomlModel::says);
        assert(w.kv_raw(key, value).text == w.text + line + Seq::empty());
    }
}

/// A line with a key and a text says so, and the lines in front of it are kept.
pub proof fn texts_are_said(w: TomlModel, key: Seq<char>, value: Seq<char>)
    ensures
        w.kv_str(key, value).color == w.color,
        !w.color ==> w.kv_str(key, value).says_text(key, value),
        forall|k: Seq<char>, v: Seq<char>| #[trigger]
            w.says(k, v) ==> w.kv_str(key, value).says(k, v),
{
    let quoted = "\""@ + escaped(value) + "\""@;
    let line = key + " = "@ + quoted + "\n"@;
    nothing_is_taken_back(
        w,
        painted(w.color, "38;2;121;192;255"@, key) + " = "@ + painted(
            w.color,
            "38;2;165;214;255"@,
            quoted,
        ) + "\n"@,
    );
    if !w.color {
        reveal(TomlModel::says);
        assert(w.kv_str(key, value).text == w.text + line + Seq::empty());
    }
}

/// Headings and empty lines keep what the document says.
pub proof fn headings_keep_what_is_said(w: TomlModel, name: Seq<char>)
    ensures
        w.section(name).color == w.color,
        w.array_section(name).color == w.color,
        w.blank().color == w.color,
        forall|k: Seq<char>, v: Seq<char>| #[trigger]
            w.says(k, v) ==> w.section(name).says(k, v),
        forall|k: Seq<char>, v: Seq<char>| #[trigger]
            w.says(k, v) ==> w.array_section(name).says(k, v),
        forall|k: Seq<char>, v: Seq<char>| #[trigger] w.says(k, v) ==> w.blank().says(k, v),
{
    nothing_is_taken_back(
        w,
        painted(w.color, "38;2;210;168;255"@, "["@ + name + "]"@) + "\n"@,
    );
    nothing_is_taken_back(
        w,
        painted(w.color, "38;2;210;168;255"@, "[["@ + name + "]]"@) + "\n"@,
    );
    nothing_is_taken_back(w, "\n"@);
}

} // verus!

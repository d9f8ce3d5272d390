//! Text built and taken apart character by character.
//!
//! A text is modelled by the sequence of its characters. Everything that the library prints is
//! put together from the pieces in this file.

use vstd::prelude::*;
use vstd::string::*;

verus! {

/// `String::push` appends one character and leaves the characters before it as they were.
pub assume_specification[ std::string::String::push ](s: &mut std::string::String, ch: char)
    ensures
        final(s)@ == old(s)@.push(ch),
;

/// The characters of each text of a list.
pub open spec fn views(values: Seq<String>) -> Seq<Seq<char>> {
    values.map_values(|value: String| value@)
}

/// `parts` with `separator` between each two neighbours.
pub open spec fn joined(parts: Seq<Seq<char>>, separator: Seq<char>) -> Seq<char>
    decreases parts.len(),
{
    if parts.len() == 0 {
        Seq::empty()
    } else if parts.len() == 1 {
        parts[0]
    } else {
        joined(parts.drop_last(), separator) + separator + parts.last()
    }
}

/// `count` copies of one character.
pub open spec fn repeated(ch: char, count: nat) -> Seq<char> {
    Seq::new(count, |i: int| ch)
}

/// `value` with `fill` in front of it up to `width` characters; never cut.
pub open spec fn padded_left(value: Seq<char>, width: nat, fill: char) -> Seq<char> {
    if value.len() < width {
        repeated(fill, (width - value.len()) as nat) + value
    } else {
        value
    }
}

/// `value` with `fill` behind it up to `width` characters; never cut.
pub open spec fn padded_right(value: Seq<char>, width: nat, fill: char) -> Seq<char> {
    if value.len() < width {
        value + repeated(fill, (width - value.len()) as nat)
    } else {
        value
    }
}

/// A result with its error taken as the characters of a message.
pub open spec fn worded<T>(result: Result<T, String>) -> Result<T, Seq<char>> {
    match result {
        Ok(value) => Ok(value),
        Err(message) => Err(message@),
    }
}

/// Whether `value` ends in `suffix`.
pub open spec fn has_suffix(value: Seq<char>, suffix: Seq<char>) -> bool {
    suffix.len() <= value.len() && value.skip(value.len() - suffix.len()) == suffix
}

/// What is left of `value` without its last `count` characters.
pub open spec fn without_last(value: Seq<char>, count: nat) -> Seq<char> {
    value.take(value.len() - count)
}

/// `value` with every copy of one character replaced by a text.
pub open spec fn with_replaced(value: Seq<char>, ch: char, replacement: Seq<char>) -> Seq<char>
    decreases value.len(),
{
    if value.len() == 0 {
        Seq::empty()
    } else {
        with_replaced(value.drop_last(), ch, replacement) + if value.last() == ch {
            replacement
        } else {
            seq![value.last()]
        }
    }
}

/// The place of the first of two characters in a text, or its length where it holds neither.
pub open spec fn first_of(value: Seq<char>, one: char, other: char) -> int
    decreases value.len(),
{
    if value.len() == 0 || value[0] == one || value[0] == other {
        0
    } else {
        1 + first_of(value.skip(1), one, other)
    }
}

/// The pieces of a text between the copies of one character.
pub open spec fn pieces(value: Seq<char>, ch: char) -> Seq<Seq<char>>
    decreases value.len(),
{
    let end = first_of(value, ch, ch);
    if 0 <= end < value.len() {
        seq![value.take(end)] + pieces(value.skip(end + 1), ch)
    } else {
        seq![value]
    }
}

/// Whether a character is white space as Unicode has it.
pub open spec fn is_space(ch: char) -> bool {
    let code = ch as u32;
    ||| 0x09 <= code <= 0x0D
    ||| code == 0x20
    ||| code == 0x85
    ||| code == 0xA0
    ||| code == 0x1680
    ||| 0x2000 <= code <= 0x200A
    ||| code == 0x2028
    ||| code == 0x2029
    ||| code == 0x202F
    ||| code == 0x205F
    ||| code == 0x3000
}

/// `value` without the copies of one character that it ends in.
pub open spec fn without_trailing(value: Seq<char>, ch: char) -> Seq<char>
    decreases value.len(),
{
    if value.len() > 0 && value.last() == ch {
        without_trailing(value.drop_last(), ch)
    } else {
        value
    }
}

/// `value` without the white space that it ends in.
pub open spec fn without_trailing_space(value: Seq<char>) -> Seq<char>
    decreases value.len(),
{
    if value.len() > 0 && is_space(value.last()) {
        without_trailing_space(value.drop_last())
    } else {
        value
    }
}

/// `value` without the white space that it starts with.
pub open spec fn without_leading_space(value: Seq<char>) -> Seq<char>
    decreases value.len(),
{
    if value.len() > 0 && is_space(value[0]) {
        without_leading_space(value.skip(1))
    } else {
        value
    }
}

/// `value` without the white space around it.
pub open spec fn trimmed(value: Seq<char>) -> Seq<char> {
    without_leading_space(without_trailing_space(value))
}

/// A character with a capital letter of the basic alphabet made small.
pub open spec fn small(ch: char) -> char {
    if 'A' <= ch <= 'Z' {
        (ch as u8 + 32) as char
    } else {
        ch
    }
}

/// Whether two texts are the same but for capital letters of the basic alphabet.
pub open spec fn alike(left: Seq<char>, right: Seq<char>) -> bool {
    &&& left.len() == right.len()
    &&& forall|i: int| 0 <= i < left.len() ==> small(#[trigger] left[i]) == small(right[i])
}

/// Whether two texts hold the same characters.
pub fn same(left: &str, right: &str) -> (result: bool)
    ensures
        result == (left@ == right@),
{
    left.to_owned() == right.to_owned()
}

/// The characters of a text as a vector.
pub fn chars_of(value: &str) -> (result: Vec<char>)
    ensures
        result@ == value@,
{
    let mut result: Vec<char> = Vec::new();
    for ch in iter: value.chars()
        invariant
            result@ == value@.take(iter.index() as int),
            iter.seq() == value@,
    {
        result.push(ch);
        assert(result@ == value@.take(iter.index() as int + 1));
    }
    result
}

/// Whether the characters end in `suffix`.
pub fn ends_with(value: &Vec<char>, suffix: &str) -> (result: bool)
    ensures
        result == has_suffix(value@, suffix@),
{
    let wanted: Vec<char> = chars_of(suffix);
    if wanted.len() > value.len() {
        return false;
    }
    let total: usize = value.len();
    let start: usize = total - wanted.len();
    let mut i: usize = 0;
    while i < wanted.len()
        invariant
            i <= wanted@.len() <= value@.len(),
            total == value@.len(),
            start == total - wanted@.len(),
            wanted@ == suffix@,
            forall|j: int| 0 <= j < i ==> value@[start + j] == wanted@[j],
        decreases wanted@.len() - i,
    {
        if value[start + i] != wanted[i] {
            assert(value@.skip(start as int)[i as int] != suffix@[i as int]);
            return false;
        }
        i = i + 1;
    }
    assert(value@.skip(start as int) == suffix@);
    true
}

/// Appends `value` with every copy of one character replaced by a text.
pub fn push_replaced(out: &mut String, value: &str, ch: char, replacement: &str)
    ensures
        final(out)@ == old(out)@ + with_replaced(value@, ch, replacement@),
{
    let ghost before = out@;
    let chars: Vec<char> = chars_of(value);
    let mut i: usize = 0;
    assert(chars@.take(0) == Seq::<char>::empty());
    assert(out@ == before + with_replaced(chars@.take(0), ch, replacement@));
    while i < chars.len()
        invariant
            i <= chars@.len(),
            out@ == before + with_replaced(chars@.take(i as int), ch, replacement@),
        decreases chars@.len() - i,
    {
        if chars[i] == ch {
            out.append(replacement);
        } else {
            out.push(chars[i]);
        }
        i = i + 1;
        assert(chars@.take(i as int).drop_last() == chars@.take(i - 1));
        assert(out@ == before + with_replaced(chars@.take(i as int), ch, replacement@));
    }
    assert(chars@.take(chars@.len() as int) == value@);
}

/// The place of the first of two characters among the first `length`, or `length`.
pub fn position_of(chars: &Vec<char>, length: usize, one: char, other: char) -> (result: usize)
    requires
        length <= chars@.len(),
    ensures
        result <= length,
        result == first_of(chars@.take(length as int), one, other),
{
    let ghost value = chars@.take(length as int);
    let mut i: usize = 0;
    assert(value.skip(0) == value);
    while i < length && chars[i] != one && chars[i] != other
        invariant
            i <= length <= chars@.len(),
            value == chars@.take(length as int),
            first_of(value, one, other) == i + first_of(value.skip(i as int), one, other),
        decreases length - i,
    {
        assert(value.skip(i as int).skip(1) == value.skip(i as int + 1));
        i = i + 1;
    }
    i
}

/// The pieces of a text between the copies of one character.
pub fn split(value: &str, ch: char) -> (result: Vec<String>)
    ensures
        views(result@) == pieces(value@, ch),
{
    let chars: Vec<char> = chars_of(value);
    let total: usize = chars.len();
    let mut result: Vec<String> = Vec::new();
    let mut from: usize = 0;
    let mut i: usize = 0;
    assert(chars@.skip(0) == chars@);
    assert(views(result@) + pieces(chars@, ch) == pieces(chars@, ch));
    while i < total
        invariant
            from <= i <= total == chars@.len(),
            chars@ == value@,
            forall|j: int| from <= j < i ==> chars@[j] != ch,
            views(result@) + pieces(chars@.skip(from as int), ch) == pieces(value@, ch),
        decreases total - i,
    {
        if chars[i] == ch {
            let ghost rest = chars@.skip(from as int);
            let ghost before = result@;
            let mut piece: String = String::new();
            push_chars(&mut piece, &chars, from, i);
            proof {
                first_found(rest, ch, i - from);
                assert(rest.take(i - from) == chars@.subrange(from as int, i as int));
                assert(rest.skip(i - from + 1) == chars@.skip(i as int + 1));
                assert(piece@ == rest.take(i - from));
            }
            result.push(piece);
            from = i + 1;
            assert(views(result@) == views(before).push(piece@));
            assert(views(result@) + pieces(chars@.skip(from as int), ch) == views(before) + pieces(
                rest,
                ch,
            ));
        }
        i = i + 1;
    }
    let ghost rest = chars@.skip(from as int);
    let ghost before = result@;
    let mut piece: String = String::new();
    push_chars(&mut piece, &chars, from, total);
    proof {
        none_found(rest, ch);
        assert(rest == chars@.subrange(from as int, total as int));
        assert(piece@ == rest);
    }
    result.push(piece);
    assert(views(result@) == views(before) + seq![rest]);
    result
}

proof fn first_found(value: Seq<char>, ch: char, place: int)
    requires
        0 <= place < value.len(),
        value[place] == ch,
        forall|i: int| 0 <= i < place ==> value[i] != ch,
    ensures
        first_of(value, ch, ch) == place,
    decreases place,
{
    if place > 0 {
        first_found(value.skip(1), ch, place - 1);
    }
}

proof fn none_found(value: Seq<char>, ch: char)
    requires
        forall|i: int| 0 <= i < value.len() ==> value[i] != ch,
    ensures
        first_of(value, ch, ch) == value.len(),
    decreases value.len(),
{
    if value.len() > 0 {
        none_found(value.skip(1), ch);
    }
}

/// Whether a character is white space as Unicode has it.
pub fn is_white_space(ch: char) -> (result: bool)
    ensures
        result == is_space(ch),
{
    let code: u32 = ch as u32;
    (0x09 <= code && code <= 0x0D) || code == 0x20 || code == 0x85 || code == 0xA0 || code == 0x1680
        || (0x2000 <= code && code <= 0x200A) || code == 0x2028 || code == 0x2029 || code == 0x202F
        || code == 0x205F || code == 0x3000
}

/// Where the first `length` characters end once the copies of one character at their end are off.
pub fn end_without(chars: &Vec<char>, length: usize, ch: char) -> (result: usize)
    requires
        length <= chars@.len(),
    ensures
        result <= length,
        chars@.take(result as int) == without_trailing(chars@.take(length as int), ch),
{
    let mut end: usize = length;
    while end > 0 && chars[end - 1] == ch
        invariant
            end <= length <= chars@.len(),
            without_trailing(chars@.take(end as int), ch) == without_trailing(
                chars@.take(length as int),
                ch,
            ),
        decreases end,
    {
        assert(chars@.take(end as int).drop_last() == chars@.take(end - 1));
        end = end - 1;
    }
    end
}

/// Where the first `length` characters end once the white space at their end is off.
pub fn end_without_space(chars: &Vec<char>, length: usize) -> (result: usize)
    requires
        length <= chars@.len(),
    ensures
        result <= length,
        chars@.take(result as int) == without_trailing_space(chars@.take(length as int)),
{
    let mut end: usize = length;
    while end > 0 && is_white_space(chars[end - 1])
        invariant
            end <= length <= chars@.len(),
            without_trailing_space(chars@.take(end as int)) == without_trailing_space(
                chars@.take(length as int),
            ),
        decreases end,
    {
        assert(chars@.take(end as int).drop_last() == chars@.take(end - 1));
        end = end - 1;
    }
    end
}

/// Where the first `length` characters start once the white space at their start is off.
pub fn start_without_space(chars: &Vec<char>, length: usize) -> (result: usize)
    requires
        length <= chars@.len(),
    ensures
        result <= length,
        chars@.subrange(result as int, length as int) == without_leading_space(
            chars@.take(length as int),
        ),
{
    let ghost value = chars@.take(length as int);
    let mut start: usize = 0;
    assert(value.skip(0) == value);
    while start < length && is_white_space(chars[start])
        invariant
            start <= length <= chars@.len(),
            value == chars@.take(length as int),
            without_leading_space(value.skip(start as int)) == without_leading_space(value),
        decreases length - start,
    {
        assert(value.skip(start as int)[0] == chars@[start as int]);
        assert(value.skip(start as int).skip(1) == value.skip(start as int + 1));
        start = start + 1;
    }
    assert(chars@.subrange(start as int, length as int) == value.skip(start as int));
    start
}

/// A text without the white space around it.
pub fn trim(value: &str) -> (result: String)
    ensures
        result@ == trimmed(value@),
{
    let chars: Vec<char> = chars_of(value);
    let end: usize = end_without_space(&chars, chars.len());
    let start: usize = start_without_space(&chars, end);
    let mut result: String = String::new();
    push_chars(&mut result, &chars, start, end);
    assert(chars@.take(chars@.len() as int) == value@);
    assert(result@ == trimmed(value@));
    result
}

fn make_small(ch: char) -> (result: char)
    ensures
        result == small(ch),
{
    if 'A' <= ch && ch <= 'Z' {
        (ch as u8 + 32) as char
    } else {
        ch
    }
}

/// Whether two texts are the same but for capital letters of the basic alphabet.
pub fn same_but_case(left: &str, right: &str) -> (result: bool)
    ensures
        result == alike(left@, right@),
{
    let first: Vec<char> = chars_of(left);
    let second: Vec<char> = chars_of(right);
    if first.len() != second.len() {
        return false;
    }
    let mut i: usize = 0;
    while i < first.len()
        invariant
            i <= first@.len() == second@.len(),
            first@ == left@,
            second@ == right@,
            forall|j: int| 0 <= j < i ==> small(#[trigger] left@[j]) == small(right@[j]),
        decreases first@.len() - i,
    {
        if make_small(first[i]) != make_small(second[i]) {
            assert(small(left@[i as int]) != small(right@[i as int]));
            return false;
        }
        i = i + 1;
    }
    true
}

/// The characters `chars[from..to]` on their own.
pub fn part(chars: &Vec<char>, from: usize, to: usize) -> (result: Vec<char>)
    requires
        from <= to <= chars@.len(),
    ensures
        result@ == chars@.subrange(from as int, to as int),
{
    let mut result: Vec<char> = Vec::new();
    let mut i: usize = from;
    while i < to
        invariant
            from <= i <= to <= chars@.len(),
            result@ == chars@.subrange(from as int, i as int),
        decreases to - i,
    {
        result.push(chars[i]);
        i = i + 1;
        assert(result@ == chars@.subrange(from as int, i as int));
    }
    result
}

/// Copies of the texts of a list from one on.
pub fn texts_from(values: &[String], from: usize) -> (result: Vec<String>)
    requires
        from <= values@.len(),
    ensures
        result@ == values@.skip(from as int),
{
    let mut result: Vec<String> = Vec::new();
    let mut i: usize = from;
    while i < values.len()
        invariant
            from <= i <= values@.len(),
            result@ == values@.subrange(from as int, i as int),
        decreases values@.len() - i,
    {
        result.push(values[i].clone());
        i = i + 1;
        assert(result@ == values@.subrange(from as int, i as int));
    }
    assert(result@ == values@.skip(from as int));
    result
}

/// Whether two lists hold the same texts in the same order.
pub fn same_texts(left: &[String], right: &[String]) -> (result: bool)
    ensures
        result == (views(left@) == views(right@)),
{
    if left.len() != right.len() {
        assert(views(left@).len() != views(right@).len());
        return false;
    }
    let mut i: usize = 0;
    while i < left.len()
        invariant
            i <= left@.len() == right@.len(),
            forall|j: int| 0 <= j < i ==> (#[trigger] left@[j])@ == right@[j]@,
        decreases left@.len() - i,
    {
        if !same(left[i].as_str(), right[i].as_str()) {
            assert(views(left@)[i as int] != views(right@)[i as int]);
            return false;
        }
        i = i + 1;
    }
    assert(views(left@) == views(right@));
    true
}

/// The three texts one behind the other.
pub fn concat3(first: &str, second: &str, third: &str) -> (result: String)
    ensures
        result@ == first@ + second@ + third@,
{
    let mut result: String = first.to_owned();
    result.append(second);
    result.append(third);
    result
}

/// The texts of a list with `separator` between each two neighbours.
pub fn join(parts: &[String], separator: &str) -> (result: String)
    ensures
        result@ == joined(views(parts@), separator@),
{
    let ghost texts = views(parts@);
    let mut result: String = String::new();
    let mut i: usize = 0;
    assert(texts.take(0) == Seq::<Seq<char>>::empty());
    assert(result@ == joined(texts.take(0), separator@));
    while i < parts.len()
        invariant
            i <= parts@.len(),
            texts == views(parts@),
            result@ == joined(texts.take(i as int), separator@),
        decreases parts@.len() - i,
    {
        if i > 0 {
            result.append(separator);
        }
        result.append(parts[i].as_str());
        i = i + 1;
        assert(texts.take(i as int).drop_last() == texts.take(i - 1));
        assert(result@ == joined(texts.take(i as int), separator@));
    }
    assert(texts.take(i as int) == texts);
    result
}

/// Appends the characters `chars[from..to]`.
pub fn push_chars(out: &mut String, chars: &Vec<char>, from: usize, to: usize)
    requires
        from <= to <= chars@.len(),
    ensures
        final(out)@ == old(out)@ + chars@.subrange(from as int, to as int),
{
    let ghost before = out@;
    let mut i: usize = from;
    while i < to
        invariant
            from <= i <= to <= chars@.len(),
            out@ == before + chars@.subrange(from as int, i as int),
        decreases to - i,
    {
        out.push(chars[i]);
        i = i + 1;
        assert(out@ == before + chars@.subrange(from as int, i as int));
    }
}

/// Appends `count` copies of one character.
pub fn push_repeated(out: &mut String, ch: char, count: usize)
    ensures
        final(out)@ == old(out)@ + repeated(ch, count as nat),
{
    let ghost before = out@;
    let mut i: usize = 0;
    while i < count
        invariant
            i <= count,
            out@ == before + repeated(ch, i as nat),
        decreases count - i,
    {
        out.push(ch);
        i = i + 1;
        assert(out@ == before + repeated(ch, i as nat));
    }
}

/// Appends `value`, padded in front to `width` characters.
pub fn push_padded_left(out: &mut String, value: &str, width: usize, fill: char)
    ensures
        final(out)@ == old(out)@ + padded_left(value@, width as nat, fill),
{
    let ghost before = out@;
    let length: usize = value.unicode_len();
    if length < width {
        push_repeated(out, fill, width - length);
    }
    out.append(value);
    assert(out@ == before + padded_left(value@, width as nat, fill));
}

/// Appends `value`, padded behind to `width` characters.
pub fn push_padded_right(out: &mut String, value: &str, width: usize, fill: char)
    ensures
        final(out)@ == old(out)@ + padded_right(value@, width as nat, fill),
{
    let ghost before = out@;
    let length: usize = value.unicode_len();
    out.append(value);
    if length < width {
        push_repeated(out, fill, width - length);
    }
    assert(out@ == before + padded_right(value@, width as nat, fill));
}

/// The pieces of a text hold no copy of the character, and give the text back with the character
/// between them.
pub proof fn pieces_join_back(value: Seq<char>, ch: char)
    ensures
        joined(pieces(value, ch), seq![ch]) == value,
        forall|k: int|
            0 <= k < pieces(value, ch).len() ==> !(#[trigger] pieces(value, ch)[k]).contains(ch),
        pieces(value, ch).len() > 0,
    decreases value.len(),
{
    first_is_first(value, ch);
    let end = first_of(value, ch, ch);
    let parts = pieces(value, ch);
    if end < value.len() {
        let head = value.take(end);
        let rest = value.skip(end + 1);
        pieces_join_back(rest, ch);
        let tail = pieces(rest, ch);
        joined_in_front(head, tail, seq![ch]);
        assert(head + seq![ch] + rest == value);
        assert forall|k: int| 0 <= k < parts.len() implies !(#[trigger] parts[k]).contains(ch) by {
            if k > 0 {
                assert(parts[k] == tail[k - 1]);
            } else {
                assert(parts[0] == head);
            }
        }
    } else {
        assert(parts == seq![value]);
        assert(parts.drop_last() == Seq::<Seq<char>>::empty());
        reveal_with_fuel(joined, 2);
        assert(parts[0] == value);
    }
}

proof fn first_is_first(value: Seq<char>, ch: char)
    ensures
        0 <= first_of(value, ch, ch) <= value.len(),
        first_of(value, ch, ch) < value.len() ==> value[first_of(value, ch, ch)] == ch,
        forall|i: int| 0 <= i < first_of(value, ch, ch) ==> #[trigger] value[i] != ch,
    decreases value.len(),
{
    if value.len() > 0 {
        let rest = value.skip(1);
        first_is_first(rest, ch);
        assert forall|i: int| 0 <= i < first_of(value, ch, ch) implies #[trigger] value[i] != ch by {
            if i > 0 {
                assert(value[i] == rest[i - 1]);
            }
        }
    }
}

proof fn joined_in_front(head: Seq<char>, tail: Seq<Seq<char>>, separator: Seq<char>)
    requires
        tail.len() > 0,
    ensures
        joined(seq![head] + tail, separator) == head + separator + joined(tail, separator),
    decreases tail.len(),
{
    let all = seq![head] + tail;
    reveal_with_fuel(joined, 2);
    if tail.len() == 1 {
        assert(all.drop_last() == seq![head]);
        assert(seq![head].drop_last() == Seq::<Seq<char>>::empty());
        assert(tail.drop_last() == Seq::<Seq<char>>::empty());
        assert(all.last() == tail.last());
    } else {
        joined_in_front(head, tail.drop_last(), separator);
        assert(all.drop_last() == seq![head] + tail.drop_last());
        assert(all.last() == tail.last());
        assert(head + separator + joined(tail.drop_last(), separator) + separator + tail.last()
            == head + separator + (joined(tail.drop_last(), separator) + separator + tail.last()));
    }
}

/// A text with a character between parts that do not hold it falls into those parts.
pub proof fn parts_are_pieces(head: Seq<char>, rest: Seq<char>, ch: char)
    requires
        !head.contains(ch),
    ensures
        pieces(head + seq![ch] + rest, ch) == seq![head] + pieces(rest, ch),
        pieces(head, ch) == seq![head],
        first_of(head + seq![ch] + rest, ch, ch) == head.len(),
{
    let value = head + seq![ch] + rest;
    assert forall|i: int| 0 <= i < head.len() implies value[i] != ch by {
        assert(head.contains(head[i]));
    }
    assert forall|i: int| 0 <= i < head.len() implies head[i] != ch by {
        assert(head.contains(head[i]));
    }
    first_found(value, ch, head.len() as int);
    none_found(head, ch);
    assert(value.take(head.len() as int) == head);
    assert(value.skip(head.len() as int + 1) == rest);
}

/// Trimming takes white space away at both ends, all of it and nothing else.
pub proof fn trimming_takes_only_space(value: Seq<char>)
    ensures
        exists|start: int, end: int|
            {
                &&& 0 <= start <= end <= value.len()
                &&& trimmed(value) == #[trigger] value.subrange(start, end)
                &&& forall|i: int| 0 <= i < start ==> is_space(#[trigger] value[i])
                &&& forall|i: int| end <= i < value.len() ==> is_space(#[trigger] value[i])
            },
        trimmed(value).len() > 0 ==> !is_space(trimmed(value)[0]) && !is_space(
            trimmed(value).last(),
        ),
{
    trailing_space_goes(value);
    let front = without_trailing_space(value);
    leading_space_goes(front);
    let rest = without_leading_space(front);
    let start = front.len() - rest.len();
    let end = front.len() as int;
    assert(rest == value.subrange(start, end));
    assert forall|i: int| 0 <= i < start implies is_space(#[trigger] value[i]) by {
        assert(front[i] == value[i]);
    }
    if rest.len() > 0 {
        assert(rest.last() == front.last());
    }
}

/// Taking trailing white space away takes all of it, and nothing else.
pub proof fn trailing_space_goes(value: Seq<char>)
    ensures
        without_trailing_space(value).len() <= value.len(),
        without_trailing_space(value) == value.take(without_trailing_space(value).len() as int),
        forall|i: int|
            without_trailing_space(value).len() <= i < value.len() ==> is_space(#[trigger] value[i]),
        without_trailing_space(value).len() > 0 ==> !is_space(without_trailing_space(value).last()),
    decreases value.len(),
{
    if value.len() > 0 && is_space(value.last()) {
        let shorter = value.drop_last();
        trailing_space_goes(shorter);
        let rest = without_trailing_space(value);
        assert(rest == value.take(rest.len() as int));
        assert forall|i: int| rest.len() <= i < value.len() implies is_space(#[trigger] value[i]) by {
            if i < shorter.len() {
                assert(shorter[i] == value[i]);
            }
        }
    } else {
        assert(value == value.take(value.len() as int));
    }
}

proof fn leading_space_goes(value: Seq<char>)
    ensures
        without_leading_space(value).len() <= value.len(),
        without_leading_space(value) == value.skip(
            value.len() - without_leading_space(value).len(),
        ),
        forall|i: int|
            0 <= i < value.len() - without_leading_space(value).len() ==> is_space(
                #[trigger] value[i],
            ),
        without_leading_space(value).len() > 0 ==> !is_space(without_leading_space(value)[0]),
    decreases value.len(),
{
    if value.len() > 0 && is_space(value[0]) {
        let shorter = value.skip(1);
        leading_space_goes(shorter);
        let rest = without_leading_space(value);
        assert(rest == value.skip(value.len() - rest.len()));
        assert forall|i: int| 0 <= i < value.len() - rest.len() implies is_space(
            #[trigger] value[i],
        ) by {
            if i > 0 {
                assert(shorter[i - 1] == value[i]);
            }
        }
    } else {
        assert(value == value.skip(0));
    }
}

/// Taking a trailing character away takes all its copies at the end, and nothing else.
pub proof fn trailing_copies_go(value: Seq<char>, ch: char)
    ensures
        without_trailing(value, ch) + repeated(
            ch,
            (value.len() - without_trailing(value, ch).len()) as nat,
        ) == value,
        without_trailing(value, ch).len() > 0 ==> without_trailing(value, ch).last() != ch,
        without_trailing(value, ch).len() <= value.len(),
    decreases value.len(),
{
    if value.len() > 0 && value.last() == ch {
        trailing_copies_go(value.drop_last(), ch);
        let rest = without_trailing(value, ch);
        assert(value == value.drop_last().push(ch));
        assert(repeated(ch, (value.len() - rest.len()) as nat) == repeated(
            ch,
            (value.len() - 1 - rest.len()) as nat,
        ).push(ch));
    }
}

/// Padding fills a text up to the width on one side, and keeps it whole.
pub proof fn padding_fills_up(value: Seq<char>, width: nat, fill: char)
    ensures
        padded_left(value, width, fill).len() == if value.len() < width {
            width
        } else {
            value.len()
        },
        padded_right(value, width, fill).len() == padded_left(value, width, fill).len(),
        has_suffix(padded_left(value, width, fill), value),
        value.is_prefix_of(padded_right(value, width, fill)),
        forall|i: int|
            0 <= i < padded_left(value, width, fill).len() - value.len() ==> #[trigger] padded_left(
                value,
                width,
                fill,
            )[i] == fill,
        forall|i: int|
            value.len() <= i < padded_right(value, width, fill).len()
                ==> #[trigger] padded_right(value, width, fill)[i] == fill,
{
    let left = padded_left(value, width, fill);
    let right = padded_right(value, width, fill);
    assert(left.skip(left.len() - value.len()) == value);
    assert(right.take(value.len() as int) == value);
}

/// Replacing a character goes through a text from end to end: each copy of the character becomes the
/// replacement, and every other character stays.
pub proof fn replacing_goes_character_by_character(
    front: Seq<char>,
    back: Seq<char>,
    ch: char,
    other: char,
    replacement: Seq<char>,
)
    ensures
        with_replaced(front + back, ch, replacement) == with_replaced(front, ch, replacement)
            + with_replaced(back, ch, replacement),
        with_replaced(seq![ch], ch, replacement) == replacement,
        other != ch ==> with_replaced(seq![other], ch, replacement) == seq![other],
        with_replaced(Seq::empty(), ch, replacement) == Seq::<char>::empty(),
    decreases back.len(),
{
    assert(seq![ch].drop_last() == Seq::<char>::empty());
    assert(seq![other].drop_last() == Seq::<char>::empty());
    reveal_with_fuel(with_replaced, 2);
    if back.len() == 0 {
        assert(front + back == front);
    } else {
        assert((front + back).drop_last() == front + back.drop_last());
        replacing_goes_character_by_character(front, back.drop_last(), ch, other, replacement);
    }
}

/// The characters of white space: the line ends and the spaces of ASCII, the next-line control, and
/// the spaces, separators and wide spaces of Unicode.
pub proof fn white_space_is_listed(ch: char)
    ensures
        is_space(ch) <==> seq![
            '\t',
            '\n',
            '\u{b}',
            '\u{c}',
            '\r',
            ' ',
            '\u{85}',
            '\u{a0}',
            '\u{1680}',
            '\u{2000}',
            '\u{2001}',
            '\u{2002}',
            '\u{2003}',
            '\u{2004}',
            '\u{2005}',
            '\u{2006}',
            '\u{2007}',
            '\u{2008}',
            '\u{2009}',
            '\u{200a}',
            '\u{2028}',
            '\u{2029}',
            '\u{202f}',
            '\u{205f}',
            '\u{3000}',
        ].contains(ch),
{
    let listed = seq![
        '\t',
        '\n',
        '\u{b}',
        '\u{c}',
        '\r',
        ' ',
        '\u{85}',
        '\u{a0}',
        '\u{1680}',
        '\u{2000}',
        '\u{2001}',
        '\u{2002}',
        '\u{2003}',
        '\u{2004}',
        '\u{2005}',
        '\u{2006}',
        '\u{2007}',
        '\u{2008}',
        '\u{2009}',
        '\u{200a}',
        '\u{2028}',
        '\u{2029}',
        '\u{202f}',
        '\u{205f}',
        '\u{3000}',
    ];
    let code = ch as u32;
    let place = if code <= 0x0D {
        code - 0x09
    } else if code == 0x20 {
        5int
    } else if code == 0x85 {
        6
    } else if code == 0xA0 {
        7
    } else if code == 0x1680 {
        8
    } else if code <= 0x200A {
        9 + (code - 0x2000)
    } else if code == 0x2028 {
        20
    } else if code == 0x2029 {
        21
    } else if code == 0x202F {
        22
    } else if code == 0x205F {
        23
    } else {
        24
    };
    if is_space(ch) {
        assert(listed[place] == ch);
    }
}

/// Every capital letter is made the small letter at its place in the alphabet, and nothing else
/// changes.
pub proof fn letters_are_made_small(index: int, ch: char)
    requires
        0 <= index < 26,
    ensures
        small("ABCDEFGHIJKLMNOPQRSTUVWXYZ"@[index]) == "abcdefghijklmnopqrstuvwxyz"@[index],
        !"ABCDEFGHIJKLMNOPQRSTUVWXYZ"@.contains(ch) ==> small(ch) == ch,
        small(small(ch)) == small(ch),
{
    reveal_strlit("ABCDEFGHIJKLMNOPQRSTUVWXYZ");
    reveal_strlit("abcdefghijklmnopqrstuvwxyz");
    let capital = "ABCDEFGHIJKLMNOPQRSTUVWXYZ"@;
    if 'A' <= ch <= 'Z' {
        assert(capital[ch as int - 65] == ch);
    }
}

/// Texts are alike exactly if they are the same with their letters made small.
pub proof fn alike_texts_have_the_same_small_letters(left: Seq<char>, right: Seq<char>)
    ensures
        alike(left, right) <==> left.map_values(|ch: char| small(ch)) == right.map_values(
            |ch: char| small(ch),
        ),
{
    let one = left.map_values(|ch: char| small(ch));
    let other = right.map_values(|ch: char| small(ch));
    if alike(left, right) {
        assert forall|i: int| 0 <= i < one.len() implies one[i] == other[i] by {
            assert(small(left[i]) == small(right[i]));
        }
        assert(one =~= other);
    }
    if one == other {
        assert(one.len() == other.len());
        assert forall|i: int| 0 <= i < left.len() implies small(#[trigger] left[i]) == small(
            right[i],
        ) by {
            assert(one[i] == other[i]);
        }
    }
}

} // verus!

//! The selectors and the keys that a command line spells out.

use crate::error::{Error, Failure};
use crate::key::{Key, KeyType};
use crate::selection;
use crate::selection::KeySelector;
use crate::text;
use vstd::prelude::*;

verus! {

/// The selectors that texts denote, or why the first one that denotes none denotes none.
pub open spec fn selectors_of(values: Seq<Seq<char>>, kind: KeyType) -> Result<
    Seq<KeySelector>,
    Failure,
>
    decreases values.len(),
{
    if values.len() == 0 {
        Ok(Seq::empty())
    } else {
        match selectors_of(values.drop_last(), kind) {
            Err(failure) => Err(failure),
            Ok(selectors) => match selection::selector_of(values.last(), kind) {
                Err(failure) => Err(failure),
                Ok(selector) => Ok(selectors.push(selector)),
            },
        }
    }
}

/// The keys that texts denote, or why the first one that denotes none denotes none.
pub open spec fn keys_of(values: Seq<Seq<char>>, kind: KeyType) -> Result<Seq<Key>, Failure>
    decreases values.len(),
{
    if values.len() == 0 {
        Ok(Seq::empty())
    } else {
        match keys_of(values.drop_last(), kind) {
            Err(failure) => Err(failure),
            Ok(keys) => match Key::read(kind, values.last()) {
                Err(failure) => Err(failure),
                Ok(key) => Ok(keys.push(key)),
            },
        }
    }
}

proof fn selector_error_stays(values: Seq<Seq<char>>, kind: KeyType, count: int)
    requires
        0 <= count <= values.len(),
        selectors_of(values.take(count), kind) is Err,
    ensures
        selectors_of(values, kind) == selectors_of(values.take(count), kind),
    decreases values.len() - count,
{
    if count < values.len() {
        assert(values.take(count + 1).drop_last() == values.take(count));
        selector_error_stays(values, kind, count + 1);
    } else {
        assert(values.take(count) == values);
    }
}

proof fn key_error_stays(values: Seq<Seq<char>>, kind: KeyType, count: int)
    requires
        0 <= count <= values.len(),
        keys_of(values.take(count), kind) is Err,
    ensures
        keys_of(values, kind) == keys_of(values.take(count), kind),
    decreases values.len() - count,
{
    if count < values.len() {
        assert(values.take(count + 1).drop_last() == values.take(count));
        key_error_stays(values, kind, count + 1);
    } else {
        assert(values.take(count) == values);
    }
}

/// The selectors that texts denote where keys are integers, or why the first one that denotes none
/// denotes none.
pub fn parse_selectors(values: &[String], key_type: KeyType) -> (result: Result<
    Vec<KeySelector>,
    Error,
>)
    requires
        key_type.is_whole(),
    ensures
        match result {
            Ok(selectors) => selectors_of(text::views(values@), key_type) == Ok::<
                Seq<KeySelector>,
                Failure,
            >(selectors@),
            Err(error) => selectors_of(text::views(values@), key_type) == Err::<
                Seq<KeySelector>,
                Failure,
            >(error@),
        },
{
    let ghost words = text::views(values@);
    let mut selectors: Vec<KeySelector> = Vec::new();
    let mut i: usize = 0;
    assert(words.take(0) == Seq::<Seq<char>>::empty());
    while i < values.len()
        invariant
            i <= values@.len(),
            key_type.is_whole(),
            words == text::views(values@),
            selectors_of(words.take(i as int), key_type) == Ok::<Seq<KeySelector>, Failure>(
                selectors@,
            ),
        decreases values@.len() - i,
    {
        assert(words.take(i as int + 1).drop_last() == words.take(i as int));
        assert(words.take(i as int + 1).last() == values@[i as int]@);
        match KeySelector::parse(values[i].as_str(), key_type) {
            Ok(selector) => selectors.push(selector),
            Err(error) => {
                proof {
                    selector_error_stays(words, key_type, i as int + 1);
                }
                return Err(error);
            },
        }
        i = i + 1;
    }
    assert(words.take(i as int) == words);
    Ok(selectors)
}

/// The keys that texts denote where keys are integers, or why the first one that denotes none
/// denotes none.
pub fn parse_keys(values: &[String], key_type: KeyType) -> (result: Result<Vec<Key>, Error>)
    requires
        key_type.is_whole(),
    ensures
        match result {
            Ok(keys) => keys_of(text::views(values@), key_type) == Ok::<Seq<Key>, Failure>(keys@),
            Err(error) => keys_of(text::views(values@), key_type) == Err::<Seq<Key>, Failure>(
                error@,
            ),
        },
{
    let ghost words = text::views(values@);
    let mut keys: Vec<Key> = Vec::new();
    let mut i: usize = 0;
    assert(words.take(0) == Seq::<Seq<char>>::empty());
    while i < values.len()
        invariant
            i <= values@.len(),
            key_type.is_whole(),
            words == text::views(values@),
            keys_of(words.take(i as int), key_type) == Ok::<Seq<Key>, Failure>(keys@),
        decreases values@.len() - i,
    {
        assert(words.take(i as int + 1).drop_last() == words.take(i as int));
        assert(words.take(i as int + 1).last() == values@[i as int]@);
        match Key::parse(key_type, values[i].as_str()) {
            Ok(key) => keys.push(key),
            Err(error) => {
                proof {
                    key_error_stays(words, key_type, i as int + 1);
                }
                return Err(error);
            },
        }
        i = i + 1;
    }
    assert(words.take(i as int) == words);
    Ok(keys)
}

/// Selectors and keys are read one by one: each is what its own text denotes, in the order of the
/// texts, and one text that denotes nothing refuses them all.
pub proof fn each_text_is_read_by_itself(values: Seq<Seq<char>>, kind: KeyType)
    ensures
        selectors_of(values, kind) is Ok <==> forall|i: int|
            0 <= i < values.len() ==> selection::selector_of(#[trigger] values[i], kind) is Ok,
        selectors_of(values, kind) matches Ok(selectors) ==> selectors.len() == values.len()
            && forall|i: int|
            0 <= i < values.len() ==> selection::selector_of(values[i], kind) == Ok::<
                KeySelector,
                Failure,
            >(#[trigger] selectors[i]),
        keys_of(values, kind) is Ok <==> forall|i: int|
            0 <= i < values.len() ==> Key::read(kind, #[trigger] values[i]) is Ok,
        keys_of(values, kind) matches Ok(keys) ==> keys.len() == values.len() && forall|i: int|
            0 <= i < values.len() ==> Key::read(kind, values[i]) == Ok::<Key, Failure>(
                #[trigger] keys[i],
            ),
    decreases values.len(),
{
    if values.len() > 0 {
        let shorter = values.drop_last();
        each_text_is_read_by_itself(shorter, kind);
        assert(forall|i: int| 0 <= i < shorter.len() ==> #[trigger] shorter[i] == values[i]);
        assert(forall|i: int| 0 <= i < shorter.len() ==> #[trigger] values[i] == shorter[i]);
        assert(values[values.len() - 1] == values.last());
    }
}

} // verus!

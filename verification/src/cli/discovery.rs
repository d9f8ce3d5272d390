//! Which files a command works on, and in what order.

use crate::text;
use vstd::prelude::*;
use vstd::string::*;

verus! {

/// A text with its letters made small, as Unicode has them.
pub uninterp spec fn lowercase(value: Seq<char>) -> Seq<char>;

/// `str::to_lowercase` makes the letters of a text small by Unicode's tables. What it returns
/// follows from the text alone.
#[verifier::external_body]
fn to_lowercase(value: &str) -> (result: String)
    ensures
        result@ == lowercase(value@),
{
    value.to_lowercase()
}

/// Whether a file name extension is that of FWOB files, in capital letters or small ones.
pub open spec fn is_fwob(extension: Option<Seq<char>>) -> bool {
    match extension {
        Some(extension) => text::alike(extension, "fwob"@),
        None => false,
    }
}

/// Whether a file name extension is that of FWOB files, in capital letters or small ones.
pub fn has_fwob_extension(extension: Option<&str>) -> (result: bool)
    ensures
        result == is_fwob(
            match extension {
                Some(extension) => Some(extension@),
                None => None,
            },
        ),
{
    match extension {
        Some(extension) => text::same_but_case(extension, "fwob"),
        None => false,
    }
}

/// Whether one text comes before another in a dictionary.
pub open spec fn precedes(left: Seq<char>, right: Seq<char>) -> bool
    decreases left.len(),
{
    if right.len() == 0 {
        false
    } else if left.len() == 0 {
        true
    } else if left[0] != right[0] {
        left[0] < right[0]
    } else {
        precedes(left.skip(1), right.skip(1))
    }
}

/// Of two different texts one comes before the other, and not the other way round; a text does not
/// come before itself.
pub proof fn one_precedes(left: Seq<char>, right: Seq<char>)
    ensures
        !(precedes(left, right) && precedes(right, left)),
        left != right ==> precedes(left, right) || precedes(right, left),
        left == right ==> !precedes(left, right),
    decreases left.len(),
{
    if left.len() > 0 && right.len() > 0 && left[0] == right[0] {
        one_precedes(left.skip(1), right.skip(1));
        if left.skip(1) == right.skip(1) {
            assert(left == seq![left[0]] + left.skip(1));
            assert(right == seq![right[0]] + right.skip(1));
        }
    } else if left.len() == 0 && right.len() == 0 {
        assert(left == right);
    }
}

/// What comes before a text comes before what that text comes before.
pub proof fn precedes_chains(first: Seq<char>, second: Seq<char>, third: Seq<char>)
    requires
        precedes(first, second),
        precedes(second, third),
    ensures
        precedes(first, third),
    decreases first.len(),
{
    if first.len() > 0 && first[0] == second[0] && second[0] == third[0] {
        precedes_chains(first.skip(1), second.skip(1), third.skip(1));
    }
}

fn is_before(left: &str, right: &str) -> (result: bool)
    ensures
        result == precedes(left@, right@),
{
    let first: Vec<char> = text::chars_of(left);
    let second: Vec<char> = text::chars_of(right);
    let mut i: usize = 0;
    assert(first@.skip(0) == first@);
    assert(second@.skip(0) == second@);
    while i < first.len() && i < second.len() && first[i] == second[i]
        invariant
            i <= first@.len(),
            i <= second@.len(),
            first@ == left@,
            second@ == right@,
            precedes(left@, right@) == precedes(left@.skip(i as int), right@.skip(i as int)),
        decreases first@.len() - i,
    {
        assert(left@.skip(i as int).skip(1) == left@.skip(i as int + 1));
        assert(right@.skip(i as int).skip(1) == right@.skip(i as int + 1));
        i = i + 1;
    }
    if i >= second.len() {
        false
    } else if i >= first.len() {
        true
    } else {
        first[i] < second[i]
    }
}

/// Whether one file is listed before another: by its name with small letters, and where these are
/// the same, as the files were found.
pub open spec fn listed_before(names: Seq<Seq<char>>, first: int, second: int) -> bool {
    ||| precedes(lowercase(names[first]), lowercase(names[second]))
    ||| lowercase(names[first]) == lowercase(names[second]) && first < second
}

/// Whether files stand in the order in which they are listed.
pub open spec fn in_listed_order(names: Seq<Seq<char>>, files: Seq<usize>) -> bool {
    forall|p: int, q: int|
        0 <= p < q < files.len() ==> listed_before(
            names,
            #[trigger] files[p] as int,
            #[trigger] files[q] as int,
        )
}

/// Whether no file found before is the same one.
pub open spec fn found_first(identities: Seq<Seq<char>>, index: int) -> bool {
    forall|earlier: int|
        0 <= earlier < index ==> #[trigger] identities[earlier] != identities[index]
}

/// A file comes before itself in no list, and of two files only one comes before the other.
pub proof fn listing_is_an_order(names: Seq<Seq<char>>, first: int, second: int)
    ensures
        !(listed_before(names, first, second) && listed_before(names, second, first)),
        first != second ==> listed_before(names, first, second) || listed_before(
            names,
            second,
            first,
        ),
{
    one_precedes(lowercase(names[first]), lowercase(names[second]));
}

fn insert_listed(
    keys: &Vec<String>,
    listed: &mut Vec<usize>,
    file: usize,
    Ghost(names): Ghost<Seq<Seq<char>>>,
)
    requires
        file < keys@.len(),
        keys@.len() == names.len(),
        forall|i: int| 0 <= i < names.len() ==> (#[trigger] keys@[i])@ == lowercase(names[i]),
        forall|p: int| 0 <= p < old(listed)@.len() ==> #[trigger] old(listed)@[p] < file,
        in_listed_order(names, old(listed)@),
    ensures
        in_listed_order(names, final(listed)@),
        forall|i: usize| final(listed)@.contains(i) <==> old(listed)@.contains(i) || i == file,
{
    let ghost before = listed@;
    let mut place: usize = 0;
    while place < listed.len() && !is_before(keys[file].as_str(), keys[listed[place]].as_str())
        invariant
            place <= listed@.len(),
            listed@ == before,
            file < keys@.len(),
            keys@.len() == names.len(),
            forall|i: int| 0 <= i < names.len() ==> (#[trigger] keys@[i])@ == lowercase(names[i]),
            forall|p: int| 0 <= p < before.len() ==> #[trigger] before[p] < file,
            forall|p: int|
                0 <= p < place ==> !precedes(
                    lowercase(names[file as int]),
                    lowercase(names[#[trigger] before[p] as int]),
                ),
        decreases listed@.len() - place,
    {
        place = place + 1;
    }
    listed.insert(place, file);
    proof {
        let after = listed@;
        assert(after == before.insert(place as int, file));
        assert forall|p: int, q: int| 0 <= p < q < after.len() implies listed_before(
            names,
            #[trigger] after[p] as int,
            #[trigger] after[q] as int,
        ) by {
            if q < place {
                assert(after[p] == before[p] && after[q] == before[q]);
            } else if p > place {
                assert(after[p] == before[p - 1] && after[q] == before[q - 1]);
            } else if p < place && q > place {
                assert(after[p] == before[p] && after[q] == before[q - 1]);
            } else if q == place {
                assert(after[p] == before[p]);
                one_precedes(lowercase(names[before[p] as int]), lowercase(names[file as int]));
            } else {
                assert(after[q] == before[q - 1]);
                let next = before[place as int] as int;
                let other = before[q - 1] as int;
                if q - 1 > place {
                    assert(listed_before(names, next, other));
                    if precedes(lowercase(names[next]), lowercase(names[other])) {
                        precedes_chains(
                            lowercase(names[file as int]),
                            lowercase(names[next]),
                            lowercase(names[other]),
                        );
                    }
                }
            }
        }
        assert forall|i: usize| after.contains(i) <==> before.contains(i) || i == file by {
            if before.contains(i) {
                let p = choose|p: int| 0 <= p < before.len() && before[p] == i;
                if p < place {
                    assert(after[p] == i);
                } else {
                    assert(after[p + 1] == i);
                }
            }
            if i == file {
                assert(after[place as int] == i);
            }
            if after.contains(i) && i != file {
                let p = choose|p: int| 0 <= p < after.len() && after[p] == i;
                if p < place {
                    assert(before[p] == i);
                } else {
                    assert(before[p - 1] == i);
                }
            }
        }
    }
}

fn lowercase_all(names: &[String]) -> (result: Vec<String>)
    ensures
        result@.len() == names@.len(),
        forall|i: int|
            0 <= i < names@.len() ==> (#[trigger] result@[i])@ == lowercase(
                text::views(names@)[i],
            ),
{
    let mut keys: Vec<String> = Vec::new();
    let mut i: usize = 0;
    while i < names.len()
        invariant
            i <= names@.len(),
            keys@.len() == i,
            forall|j: int|
                0 <= j < i ==> (#[trigger] keys@[j])@ == lowercase(text::views(names@)[j]),
        decreases names@.len() - i,
    {
        keys.push(to_lowercase(names[i].as_str()));
        i = i + 1;
    }
    keys
}

/// The files that were found, each once, in the order in which they are listed.
///
/// A file is found by its name; two names of one file have the same identity, and the name found
/// first stays.
pub fn discover_files(names: &[String], identities: &[String]) -> (result: Vec<usize>)
    requires
        names@.len() == identities@.len(),
    ensures
        in_listed_order(text::views(names@), result@),
        forall|i: usize| #[trigger]
            result@.contains(i) <==> i < names@.len() && found_first(
                text::views(identities@),
                i as int,
            ),
{
    let ghost texts = text::views(names@);
    let ghost seen = text::views(identities@);
    let keys: Vec<String> = lowercase_all(names);
    let mut listed: Vec<usize> = Vec::new();
    let mut i: usize = 0;
    while i < names.len()
        invariant
            i <= names@.len() == identities@.len(),
            texts == text::views(names@),
            seen == text::views(identities@),
            keys@.len() == texts.len(),
            forall|j: int| 0 <= j < texts.len() ==> (#[trigger] keys@[j])@ == lowercase(texts[j]),
            in_listed_order(texts, listed@),
            forall|j: usize| #[trigger]
                listed@.contains(j) <==> j < i && found_first(seen, j as int),
        decreases names@.len() - i,
    {
        let mut first: bool = true;
        let mut j: usize = 0;
        while j < i
            invariant
                j <= i < identities@.len(),
                seen == text::views(identities@),
                first <==> forall|k: int| 0 <= k < j ==> #[trigger] seen[k] != seen[i as int],
            decreases i - j,
        {
            assert(seen[j as int] == identities@[j as int]@);
            assert(seen[i as int] == identities@[i as int]@);
            if text::same(identities[j].as_str(), identities[i].as_str()) {
                first = false;
            }
            j = j + 1;
        }
        if first {
            proof {
                assert forall|p: int| 0 <= p < listed@.len() implies #[trigger] listed@[p] < i by {
                    assert(listed@.contains(listed@[p]));
                }
            }
            insert_listed(&keys, &mut listed, i, Ghost(texts));
        }
        i = i + 1;
    }
    listed
}

/// All files that were found, in the order in which they are listed.
pub fn list_files(names: &[String]) -> (result: Vec<usize>)
    ensures
        in_listed_order(text::views(names@), result@),
        forall|i: usize| #[trigger] result@.contains(i) <==> i < names@.len(),
{
    let ghost texts = text::views(names@);
    let keys: Vec<String> = lowercase_all(names);
    let mut listed: Vec<usize> = Vec::new();
    let mut i: usize = 0;
    while i < names.len()
        invariant
            i <= names@.len(),
            texts == text::views(names@),
            keys@.len() == texts.len(),
            forall|j: int| 0 <= j < texts.len() ==> (#[trigger] keys@[j])@ == lowercase(texts[j]),
            in_listed_order(texts, listed@),
            forall|j: usize| #[trigger] listed@.contains(j) <==> j < i,
        decreases names@.len() - i,
    {
        proof {
            assert forall|p: int| 0 <= p < listed@.len() implies #[trigger] listed@[p] < i by {
                assert(listed@.contains(listed@[p]));
            }
        }
        insert_listed(&keys, &mut listed, i, Ghost(texts));
        i = i + 1;
    }
    listed
}

/// What a list holds and the order of listing leave one list only.
pub proof fn listing_is_unique(names: Seq<Seq<char>>, left: Seq<usize>, right: Seq<usize>)
    requires
        in_listed_order(names, left),
        in_listed_order(names, right),
        forall|i: usize| left.contains(i) <==> right.contains(i),
    ensures
        left == right,
    decreases left.len(),
{
    if left.len() == 0 {
        if right.len() > 0 {
            assert(right.contains(right[0]));
        }
        assert(left == right);
    } else {
        assert(left.contains(left.last()));
        assert(right.len() > 0);
        assert(right.contains(right.last()));
        let p = choose|p: int| 0 <= p < left.len() && left[p] == right.last();
        let q = choose|q: int| 0 <= q < right.len() && right[q] == left.last();
        if left.last() != right.last() {
            assert(listed_before(names, left[p] as int, left.last() as int));
            assert(listed_before(names, right[q] as int, right.last() as int));
            listing_is_an_order(names, left.last() as int, right.last() as int);
        }
        assert forall|i: usize| left.drop_last().contains(i) <==> right.drop_last().contains(i) by {
            if left.drop_last().contains(i) {
                shorter_list(names, left, right, i);
            }
            if right.drop_last().contains(i) {
                shorter_list(names, right, left, i);
            }
        }
        listing_is_unique(names, left.drop_last(), right.drop_last());
        assert(left == left.drop_last().push(left.last()));
        assert(right == right.drop_last().push(right.last()));
    }
}

proof fn shorter_list(names: Seq<Seq<char>>, left: Seq<usize>, right: Seq<usize>, file: usize)
    requires
        in_listed_order(names, left),
        in_listed_order(names, right),
        forall|i: usize| left.contains(i) <==> right.contains(i),
        left.len() > 0,
        right.len() > 0,
        left.last() == right.last(),
        left.drop_last().contains(file),
    ensures
        right.drop_last().contains(file),
{
    let p = choose|p: int| 0 <= p < left.drop_last().len() && left.drop_last()[p] == file;
    assert(left[p] == file);
    assert(left.contains(file));
    assert(listed_before(names, left[p] as int, left.last() as int));
    listing_is_an_order(names, file as int, file as int);
    let q = choose|q: int| 0 <= q < right.len() && right[q] == file;
    assert(right.contains(file));
    assert(q < right.len() - 1);
    assert(right.drop_last()[q] == file);
}

/// Only files whose extension is `fwob` are FWOB files, whatever letters of it are capital.
pub proof fn only_fwob_is_fwob(extension: Seq<char>)
    ensures
        is_fwob(Some(extension)) <==> extension.len() == 4 && (extension[0] == 'f' || extension[0]
            == 'F') && (extension[1] == 'w' || extension[1] == 'W') && (extension[2] == 'o'
            || extension[2] == 'O') && (extension[3] == 'b' || extension[3] == 'B'),
        !is_fwob(None),
{
    reveal_strlit("fwob");
    let word = "fwob"@;
    assert(word.len() == 4);
    if is_fwob(Some(extension)) {
        assert(text::small(extension[0]) == text::small(word[0]));
        assert(text::small(extension[1]) == text::small(word[1]));
        assert(text::small(extension[2]) == text::small(word[2]));
        assert(text::small(extension[3]) == text::small(word[3]));
    }
    if extension.len() == 4 && (extension[0] == 'f' || extension[0] == 'F') && (extension[1] == 'w'
        || extension[1] == 'W') && (extension[2] == 'o' || extension[2] == 'O') && (extension[3]
        == 'b' || extension[3] == 'B') {
        assert forall|i: int| 0 <= i < extension.len() implies text::small(
            #[trigger] extension[i],
        ) == text::small(word[i]) by {}
    }
}

/// Files whose names differ in capital letters only are listed as they were found.
pub proof fn like_names_stay_as_found(names: Seq<Seq<char>>, first: int, second: int)
    requires
        lowercase(names[first]) == lowercase(names[second]),
    ensures
        listed_before(names, first, second) <==> first < second,
{
    one_precedes(lowercase(names[first]), lowercase(names[second]));
}

} // verus!

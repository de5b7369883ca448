//! Small helpers on strings that the rest of the crate shares.

use vstd::prelude::*;
use vstd::string::*;

verus! {

/// Compares two string slices with `str`'s own `==`; the contract says that
/// the answer is whether they hold the same characters.
#[verifier::external_body]
pub(crate) fn str_eq(a: &str, b: &str) -> (same: bool)
    ensures
        same == (a@ == b@),
{
    a == b
}

/// Calls `str::split_once` with a character as the delimiter: the text
/// before the first occurrence of the delimiter and the text after it, or
/// `None` if the delimiter does not occur.
#[verifier::external_body]
pub(crate) fn split_once_at<'a>(text: &'a str, delimiter: char) -> (out: Option<(&'a str, &'a str)>)
    ensures
        match out {
            Some((head, tail)) => text@ == head@.push(delimiter) + tail@ && !head@.contains(
                delimiter,
            ),
            None => !text@.contains(delimiter),
        },
{
    text.split_once(delimiter)
}

/// Calls `str::rsplit_once` with a character as the delimiter: the text
/// before the last occurrence of the delimiter and the text after it, or
/// `None` if the delimiter does not occur.
#[verifier::external_body]
pub(crate) fn rsplit_once_at<'a>(text: &'a str, delimiter: char) -> (out: Option<(&'a str, &'a str)>)
    ensures
        match out {
            Some((head, tail)) => text@ == head@.push(delimiter) + tail@ && !tail@.contains(
                delimiter,
            ),
            None => !text@.contains(delimiter),
        },
{
    text.rsplit_once(delimiter)
}

/// The part of `text` after the last occurrence of `delimiter`; all of
/// `text` if the delimiter does not occur.
pub open spec fn after_last(text: Seq<char>, delimiter: char) -> Seq<char>
    decreases text.len(),
{
    if text.len() == 0 {
        text
    } else if text.last() == delimiter {
        Seq::empty()
    } else {
        after_last(text.drop_last(), delimiter).push(text.last())
    }
}

/// The part of `text` after the first occurrence of `delimiter`; nothing if
/// the delimiter does not occur.
pub open spec fn after_first(text: Seq<char>, delimiter: char) -> Seq<char>
    decreases text.len(),
{
    if text.len() == 0 {
        text
    } else if text[0] == delimiter {
        text.drop_first()
    } else {
        after_first(text.drop_first(), delimiter)
    }
}

/// What stands after a delimiter that does not occur again is the part
/// after the last occurrence.
pub proof fn lemma_after_last(head: Seq<char>, delimiter: char, tail: Seq<char>)
    requires
        !tail.contains(delimiter),
    ensures
        after_last(head.push(delimiter) + tail, delimiter) == tail,
    decreases tail.len(),
{
    let text = head.push(delimiter) + tail;
    if tail.len() == 0 {
        assert(text =~= head.push(delimiter));
        assert(text.last() == delimiter);
        assert(after_last(text, delimiter) =~= tail);
    } else {
        assert(text.last() == tail.last());
        assert(tail.contains(tail.last()));
        assert(text.drop_last() =~= head.push(delimiter) + tail.drop_last());
        assert(!tail.drop_last().contains(delimiter)) by {
            if tail.drop_last().contains(delimiter) {
                let i = choose|i: int|
                    0 <= i < tail.drop_last().len() && tail.drop_last()[i] == delimiter;
                assert(tail[i] == delimiter);
            }
        }
        lemma_after_last(head, delimiter, tail.drop_last());
        assert(tail.drop_last().push(tail.last()) =~= tail);
    }
}

/// What stands after a delimiter that did not occur before is the part
/// after the first occurrence.
pub proof fn lemma_after_first(head: Seq<char>, delimiter: char, tail: Seq<char>)
    requires
        !head.contains(delimiter),
    ensures
        after_first(head.push(delimiter) + tail, delimiter) == tail,
    decreases head.len(),
{
    let text = head.push(delimiter) + tail;
    if head.len() == 0 {
        assert(text[0] == delimiter);
        assert(text.drop_first() =~= tail);
    } else {
        assert(text[0] == head[0]);
        assert(head.contains(head[0]));
        assert(text.drop_first() =~= head.drop_first().push(delimiter) + tail);
        assert(!head.drop_first().contains(delimiter)) by {
            if head.drop_first().contains(delimiter) {
                let i = choose|i: int|
                    0 <= i < head.drop_first().len() && head.drop_first()[i] == delimiter;
                assert(head[i + 1] == delimiter);
            }
        }
        lemma_after_first(head.drop_first(), delimiter, tail);
    }
}

/// The part of `text` after the last occurrence of `delimiter`, or `None` if
/// the delimiter does not occur.
pub fn tail_after_last(text: &str, delimiter: char) -> (out: Option<String>)
    ensures
        text@.contains(delimiter) ==> ({
            &&& out matches Some(tail)
            &&& tail@ == after_last(text@, delimiter)
        }),
        !text@.contains(delimiter) ==> out is None,
{
    match rsplit_once_at(text, delimiter) {
        Some((head, tail)) => {
            proof {
                lemma_after_last(head@, delimiter, tail@);
                assert(text@[head@.len() as int] == delimiter);
            }
            Some(String::from_str(tail))
        },
        None => None,
    }
}

/// The part of `text` after the first occurrence of `delimiter`, or `None`
/// if the delimiter does not occur.
pub fn tail_after_first(text: &str, delimiter: char) -> (out: Option<String>)
    ensures
        text@.contains(delimiter) ==> ({
            &&& out matches Some(tail)
            &&& tail@ == after_first(text@, delimiter)
        }),
        !text@.contains(delimiter) ==> out is None,
{
    match split_once_at(text, delimiter) {
        Some((head, tail)) => {
            proof {
                lemma_after_first(head@, delimiter, tail@);
                assert(text@[head@.len() as int] == delimiter);
            }
            Some(String::from_str(tail))
        },
        None => None,
    }
}

/// A fresh `String` that holds `head` followed by `tail`.
pub fn join2(head: &str, tail: &str) -> (out: String)
    ensures
        out@ == head@ + tail@,
{
    let mut out = String::from_str(head);
    out.append(tail);
    out
}

/// The texts of a vector of strings.
pub open spec fn texts(strings: Seq<String>) -> Seq<Seq<char>> {
    strings.map_values(|s: String| s@)
}

/// The first position at which `key` stands in `keys`.
pub open spec fn first_index(keys: Seq<Seq<char>>, key: Seq<char>) -> Option<int>
    decreases keys.len(),
{
    if keys.len() == 0 {
        None
    } else if keys[0] == key {
        Some(0)
    } else {
        match first_index(keys.drop_first(), key) {
            Some(i) => Some(i + 1),
            None => None,
        }
    }
}

/// Whether no key stands at two positions.
pub open spec fn all_distinct(keys: Seq<Seq<char>>) -> bool {
    forall|i: int, j: int| 0 <= i < keys.len() && 0 <= j < keys.len() && i != j ==> keys[i] != keys[j]
}

/// `first_index` names a position that holds the key and none before it
/// does; it names none only if no position holds the key.
pub proof fn lemma_first_index(keys: Seq<Seq<char>>, key: Seq<char>)
    ensures
        match first_index(keys, key) {
            Some(i) => {
                &&& 0 <= i < keys.len()
                &&& keys[i] == key
                &&& forall|j: int| 0 <= j < i ==> keys[j] != key
            },
            None => forall|j: int| 0 <= j < keys.len() ==> keys[j] != key,
        },
    decreases keys.len(),
{
    if keys.len() != 0 && keys[0] != key {
        let rest = keys.drop_first();
        lemma_first_index(rest, key);
        match first_index(rest, key) {
            Some(i) => {
                assert forall|j: int| 0 <= j < i + 1 implies keys[j] != key by {
                    if j > 0 {
                        assert(keys[j] == rest[j - 1]);
                    }
                }
            },
            None => {
                assert forall|j: int| 0 <= j < keys.len() implies keys[j] != key by {
                    if j > 0 {
                        assert(keys[j] == rest[j - 1]);
                    }
                }
            },
        }
    }
}

/// A position that holds the key and has no earlier position that holds it
/// is the one that `first_index` names.
pub proof fn lemma_first_index_is(keys: Seq<Seq<char>>, key: Seq<char>, i: int)
    requires
        0 <= i < keys.len(),
        keys[i] == key,
        forall|j: int| 0 <= j < i ==> keys[j] != key,
    ensures
        first_index(keys, key) == Some(i),
{
    lemma_first_index(keys, key);
}

/// The first position of `strings` that holds the text `key`.
pub fn index_of(strings: &Vec<String>, key: &str) -> (found: Option<usize>)
    ensures
        match found {
            Some(i) => first_index(texts(strings@), key@) == Some(i as int) && i < strings@.len(),
            None => first_index(texts(strings@), key@) is None,
        },
{
    let n = strings.len();
    let mut i: usize = 0;
    while i < n
        invariant
            n == strings@.len(),
            i <= n,
            forall|j: int| 0 <= j < i ==> texts(strings@)[j] != key@,
        decreases n - i,
    {
        if str_eq(strings[i].as_str(), key) {
            proof {
                lemma_first_index_is(texts(strings@), key@, i as int);
            }
            return Some(i);
        }
        i += 1;
    }
    proof {
        lemma_first_index(texts(strings@), key@);
    }
    None
}

/// The template with its places filled: every `{}` gives way to the next
/// of `args`, or to nothing once they are used up; `{{` and `}}` stand for
/// one brace each; every other character stands for itself.
pub open spec fn filled(template: Seq<char>, args: Seq<Seq<char>>) -> Seq<char>
    decreases template.len(),
{
    if template.len() == 0 {
        Seq::empty()
    } else if template.len() >= 2 && template[0] == '{' && template[1] == '{' {
        seq!['{'] + filled(template.skip(2), args)
    } else if template.len() >= 2 && template[0] == '}' && template[1] == '}' {
        seq!['}'] + filled(template.skip(2), args)
    } else if template.len() >= 2 && template[0] == '{' && template[1] == '}' {
        if args.len() > 0 {
            args[0] + filled(template.skip(2), args.drop_first())
        } else {
            filled(template.skip(2), args)
        }
    } else {
        seq![template[0]] + filled(template.skip(1), args)
    }
}

/// Fills the places of a template: every `{}` gives way to the next of
/// `args`, or to nothing once they are used up; `{{` and `}}` stand for one
/// brace each.
pub fn fill_template(template: &str, args: &Vec<String>) -> (out: String)
    ensures
        out@ == filled(template@, texts(args@)),
{
    proof {
        reveal_strlit("{");
        reveal_strlit("}");
    }
    let ghost all = texts(args@);
    let n = template.unicode_len();
    let mut out = String::new();
    let mut i: usize = 0;
    let mut k: usize = 0;
    assert(template@.skip(0) =~= template@);
    assert(all.skip(0) =~= all);
    while i < n
        invariant
            n == template@.len(),
            i <= n,
            k <= args@.len(),
            all == texts(args@),
            "{"@ == seq!['{'],
            "}"@ == seq!['}'],
            out@ + filled(template@.skip(i as int), all.skip(k as int)) == filled(template@, all),
        decreases n - i,
    {
        let ghost rest = template@.skip(i as int);
        let ghost left = all.skip(k as int);
        let ghost before = out@;
        let c = template.get_char(i);
        assert(rest[0] == c);
        let pair = if i + 1 < n {
            let d = template.get_char(i + 1);
            assert(rest[1] == d);
            if c == '{' && d == '{' {
                1u8
            } else if c == '}' && d == '}' {
                2u8
            } else if c == '{' && d == '}' {
                3u8
            } else {
                0u8
            }
        } else {
            0u8
        };
        if pair == 1 {
            out.append("{");
            assert(rest.skip(2) =~= template@.skip(i as int + 2));
            assert(out@ + filled(rest.skip(2), left) =~= before + (seq!['{'] + filled(
                rest.skip(2),
                left,
            )));
            i += 2;
        } else if pair == 2 {
            out.append("}");
            assert(rest.skip(2) =~= template@.skip(i as int + 2));
            assert(out@ + filled(rest.skip(2), left) =~= before + (seq!['}'] + filled(
                rest.skip(2),
                left,
            )));
            i += 2;
        } else if pair == 3 {
            assert(rest.skip(2) =~= template@.skip(i as int + 2));
            if k < args.len() {
                out.append(args[k].as_str());
                assert(left[0] == args@[k as int]@);
                assert(left.drop_first() =~= all.skip(k as int + 1));
                assert(out@ + filled(rest.skip(2), left.drop_first()) =~= before + (left[0]
                    + filled(rest.skip(2), left.drop_first())));
                k += 1;
            }
            i += 2;
        } else {
            out.append(template.substring_char(i, i + 1));
            assert(template@.subrange(i as int, i as int + 1) =~= seq![c]);
            assert(rest.skip(1) =~= template@.skip(i as int + 1));
            assert(out@ + filled(rest.skip(1), left) =~= before + (seq![c] + filled(
                rest.skip(1),
                left,
            )));
            i += 1;
        }
    }
    assert(template@.skip(n as int) =~= Seq::<char>::empty());
    assert(out@ + Seq::<char>::empty() =~= out@);
    out
}

} // verus!

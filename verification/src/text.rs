//! Operations on text, specified over sequences of characters.

use vstd::prelude::*;

verus! {

/// `pattern` stands in `text` at position `at`.
pub open spec fn occurs_at(text: Seq<char>, pattern: Seq<char>, at: int) -> bool {
    &&& 0 <= at
    &&& at + pattern.len() <= text.len()
    &&& text.subrange(at, at + pattern.len()) == pattern
}

/// `at` is the first position at which `pattern` stands in `text`.
pub open spec fn first_occurs_at(text: Seq<char>, pattern: Seq<char>, at: int) -> bool {
    &&& occurs_at(text, pattern, at)
    &&& forall|j: int| 0 <= j < at ==> !occurs_at(text, pattern, j)
}

/// What stands before and after the first `separator` in `text`.
pub open spec fn cut_at(text: Seq<char>, separator: Seq<char>) -> Option<(Seq<char>, Seq<char>)> {
    if exists|i: int| first_occurs_at(text, separator, i) {
        let i = choose|i: int| first_occurs_at(text, separator, i);
        Some((text.subrange(0, i), text.subrange(i + separator.len(), text.len() as int)))
    } else {
        None
    }
}

/// `text` with every `from` replaced by `to`.
pub open spec fn with_replaced(text: Seq<char>, from: char, to: char) -> Seq<char> {
    text.map_values(|c: char| if c == from { to } else { c })
}

/// `text` without the run of `last` at its end.
pub open spec fn without_trailing(text: Seq<char>, last: char) -> Seq<char>
    decreases text.len(),
{
    if text.len() > 0 && text.last() == last {
        without_trailing(text.drop_last(), last)
    } else {
        text
    }
}

/// What is left without a run of `last` is a prefix of the text, does not end in `last`, and lacks
/// nothing but `last`.
pub proof fn lemma_without_trailing(text: Seq<char>, last: char)
    ensures
        without_trailing(text, last).is_prefix_of(text),
        without_trailing(text, last).len() > 0 ==> without_trailing(text, last).last() != last,
        forall|i: int| without_trailing(text, last).len() <= i < text.len() ==> text[i] == last,
    decreases text.len(),
{
    if text.len() > 0 && text.last() == last {
        lemma_without_trailing(text.drop_last(), last);
        assert forall|i: int| without_trailing(text, last).len() <= i < text.len() implies text[i]
            == last by {
            if i < text.len() - 1 {
                assert(text.drop_last()[i] == last);
            }
        }
    }
}

/// A text whose first part lacks the separator's first character is cut right after that part.
pub proof fn lemma_cut_at(before: Seq<char>, separator: Seq<char>, after: Seq<char>)
    requires
        separator.len() > 0,
        !before.contains(separator[0]),
    ensures
        cut_at(before + separator + after, separator) == Some((before, after)),
{
    let whole = before + separator + after;
    let at = before.len() as int;
    assert(whole.subrange(at, at + separator.len()) =~= separator);
    assert forall|j: int| 0 <= j < before.len() implies !occurs_at(whole, separator, j) by {
        if occurs_at(whole, separator, j) {
            assert(whole.subrange(j, j + separator.len())[0] == before[j]);
        }
    }
    assert(first_occurs_at(whole, separator, at));
    let i = choose|i: int| first_occurs_at(whole, separator, i);
    assert(i == at);
    assert(whole.subrange(0, i) =~= before);
    assert(whole.subrange(i + separator.len(), whole.len() as int) =~= after);
}

/// `String::push` of std: the character is appended to the text.
pub assume_specification[ String::push ](string: &mut String, c: char)
    ensures
        final(string)@ == old(string)@.push(c),
;

/// The characters of a text.
fn characters(text: &str) -> (chars: Vec<char>)
    ensures
        chars@ == text@,
{
    let mut chars: Vec<char> = Vec::new();
    for c in it: text.chars()
        invariant
            it.seq() == text@,
            chars@ == it.seq().take(it.index() as int),
    {
        chars.push(c);
    }
    chars
}

/// Splits a text at the first place where the separator stands.
pub fn split_once<'a>(text: &'a str, separator: &str) -> (parts: Option<(&'a str, &'a str)>)
    ensures
        match parts {
            Some((before, after)) => cut_at(text@, separator@) == Some((before@, after@)),
            None => cut_at(text@, separator@) is None,
        },
{
    let chars = characters(text);
    let pattern = characters(separator);
    let mut at: usize = 0;
    while pattern.len() <= chars.len() - at
        invariant
            chars@ == text@,
            pattern@ == separator@,
            at <= chars.len(),
            forall|j: int| 0 <= j < at ==> !occurs_at(text@, separator@, j),
        decreases chars.len() - at,
    {
        if stands_at(&chars, &pattern, at) {
            proof {
                assert(first_occurs_at(text@, separator@, at as int));
                let i = choose|i: int| first_occurs_at(text@, separator@, i);
                assert(i == at);
            }
            return Some(
                (text.substring_char(0, at), text.substring_char(at + pattern.len(), chars.len())),
            );
        }
        proof {
            if pattern.len() == 0 {
                assert(text@.subrange(at as int, at as int) =~= separator@);
            }
        }
        at += 1;
    }
    None
}

/// Whether the pattern stands in the text at the position.
fn stands_at(chars: &Vec<char>, pattern: &Vec<char>, at: usize) -> (found: bool)
    requires
        at + pattern.len() <= chars.len(),
    ensures
        found == occurs_at(chars@, pattern@, at as int),
{
    for k in 0..pattern.len()
        invariant
            at + pattern.len() <= chars.len(),
            forall|j: int| 0 <= j < k ==> chars@[at + j] == pattern@[j],
    {
        if chars[at + k] != pattern[k] {
            proof {
                assert(chars@.subrange(at as int, at + pattern.len())[k as int] != pattern@[k as int]);
            }
            return false;
        }
    }
    assert(chars@.subrange(at as int, at + pattern.len()) =~= pattern@);
    true
}

/// Replaces every occurrence of one character by another.
pub fn replace_char(text: &str, from: char, to: char) -> (replaced: String)
    ensures
        replaced@ == with_replaced(text@, from, to),
{
    let mut replaced = String::new();
    for c in it: text.chars()
        invariant
            it.seq() == text@,
            replaced@ == with_replaced(it.seq().take(it.index() as int), from, to),
    {
        replaced.push(if c == from { to } else { c });
    }
    replaced
}

/// Drops the run of one character at the end of a text.
pub fn trim_end_char(text: &str, last: char) -> (trimmed: &str)
    ensures
        trimmed@ == without_trailing(text@, last),
{
    let chars = characters(text);
    let mut end: usize = chars.len();
    assert(text@.take(end as int) =~= text@);
    while end > 0 && chars[end - 1] == last
        invariant
            chars@ == text@,
            end <= chars.len(),
            without_trailing(text@, last) == without_trailing(text@.take(end as int), last),
        decreases end,
    {
        assert(text@.take(end as int).drop_last() =~= text@.take(end - 1));
        end -= 1;
    }
    assert(text@.take(end as int) =~= text@.subrange(0, end as int));
    text.substring_char(0, end)
}

/// Whether two texts are the same.
pub fn same_text(a: &str, b: &str) -> (same: bool)
    ensures
        same == (a@ == b@),
{
    a.to_owned() == b.to_owned()
}

/// Where a pattern stands in a text, it stands somewhere first.
proof fn lemma_occurs_first(text: Seq<char>, pattern: Seq<char>, at: int)
    requires
        occurs_at(text, pattern, at),
    ensures
        exists|i: int| first_occurs_at(text, pattern, i),
    decreases at,
{
    if exists|j: int| 0 <= j < at && occurs_at(text, pattern, j) {
        let j = choose|j: int| 0 <= j < at && occurs_at(text, pattern, j);
        lemma_occurs_first(text, pattern, j);
    } else {
        assert(first_occurs_at(text, pattern, at));
    }
}

/// A text is its two parts with the separator between them, and the separator stands nowhere before;
/// a text that is not cut does not hold the separator.
pub proof fn lemma_parts(text: Seq<char>, separator: Seq<char>)
    ensures
        match cut_at(text, separator) {
            Some((before, after)) => {
                &&& text == before + separator + after
                &&& forall|i: int|
                    0 <= i < before.len() ==> !separator.is_prefix_of(#[trigger] text.skip(i))
            },
            None => forall|i: int|
                0 <= i <= text.len() ==> !separator.is_prefix_of(#[trigger] text.skip(i)),
        },
{
    match cut_at(text, separator) {
        Some((before, after)) => {
            let at = choose|i: int| first_occurs_at(text, separator, i);
            assert(text =~= before + text.subrange(at, at + separator.len()) + after);
            assert forall|i: int| 0 <= i < before.len() implies !separator.is_prefix_of(
                #[trigger] text.skip(i),
            ) by {
                if separator.is_prefix_of(text.skip(i)) {
                    assert(text.subrange(i, i + separator.len()) =~= text.skip(i).subrange(
                        0,
                        separator.len() as int,
                    ));
                    assert(occurs_at(text, separator, i));
                }
            }
        },
        None => {
            assert forall|i: int| 0 <= i <= text.len() implies !separator.is_prefix_of(
                #[trigger] text.skip(i),
            ) by {
                if separator.is_prefix_of(text.skip(i)) {
                    assert(text.subrange(i, i + separator.len()) =~= text.skip(i).subrange(
                        0,
                        separator.len() as int,
                    ));
                    lemma_occurs_first(text, separator, i);
                }
            }
        },
    }
}

/// The two parts of a text with the separator between them are the text, and the separator stands
/// nowhere before the place at which the text is split; a text that is not split does not hold it.
pub proof fn law_parts_make_up_the_text<'a>(
    text: &'a str,
    separator: &str,
    parts: Option<(&'a str, &'a str)>,
)
    requires
        call_ensures(split_once, (text, separator), parts),
    ensures
        match parts {
            Some((before, after)) => {
                &&& text@ == before@ + separator@ + after@
                &&& forall|i: int|
                    0 <= i < before@.len() ==> !separator@.is_prefix_of(#[trigger] text@.skip(i))
            },
            None => forall|i: int|
                0 <= i <= text@.len() ==> !separator@.is_prefix_of(#[trigger] text@.skip(i)),
        },
{
    lemma_parts(text@, separator@);
}

/// A replacement keeps the length of a text, and every character but the one that is replaced.
pub proof fn law_nothing_else_is_replaced(text: &str, from: char, to: char, replaced: String)
    requires
        call_ensures(replace_char, (text, from, to), replaced),
    ensures
        replaced@.len() == text@.len(),
        forall|i: int| 0 <= i < text@.len() && text@[i] == from ==> #[trigger] replaced@[i] == to,
        forall|i: int|
            0 <= i < text@.len() && text@[i] != from ==> #[trigger] replaced@[i] == text@[i],
{
}

/// What is trimmed from a text is a run of the one character at its end, the whole run.
pub proof fn law_nothing_else_is_trimmed<'a>(text: &'a str, last: char, trimmed: &'a str)
    requires
        call_ensures(trim_end_char, (text, last), trimmed),
    ensures
        trimmed@.is_prefix_of(text@),
        trimmed@.len() > 0 ==> trimmed@.last() != last,
        forall|i: int| trimmed@.len() <= i < text@.len() ==> text@[i] == last,
{
    lemma_without_trailing(text@, last);
}

/// Two texts are the same where they have the same characters at the same places.
pub proof fn law_same_texts_have_the_same_characters(a: &str, b: &str, same: bool)
    requires
        call_ensures(same_text, (a, b), same),
    ensures
        same <==> a@.len() == b@.len() && forall|i: int| 0 <= i < a@.len() ==> a@[i] == b@[i],
{
    if a@.len() == b@.len() && forall|i: int| 0 <= i < a@.len() ==> a@[i] == b@[i] {
        assert(a@ =~= b@);
    }
}

} // verus!

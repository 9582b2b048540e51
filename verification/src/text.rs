//! Operations on text, over its sequence of characters.

use vstd::prelude::*;
use vstd::string::*;

verus! {

/// `String::push` appends one character to the end of the string.
pub assume_specification[ String::push ](s: &mut String, c: char)
    ensures
        final(s)@ == old(s)@.push(c),
;

/// The characters of an optional text.
pub open spec fn optional(text: Option<String>) -> Option<Seq<char>> {
    match text {
        Some(t) => Some(t@),
        None => None,
    }
}

/// The characters of each text of a list.
pub open spec fn each(texts: Seq<String>) -> Seq<Seq<char>> {
    Seq::new(texts.len(), |i: int| texts[i]@)
}

/// The characters of each key and value of a list of pairs.
pub open spec fn each_pair(pairs: Seq<(String, String)>) -> Seq<(Seq<char>, Seq<char>)> {
    Seq::new(pairs.len(), |i: int| (pairs[i].0@, pairs[i].1@))
}

/// The text without the occurrences of `c` at its end.
pub open spec fn trimmed_end(text: Seq<char>, c: char) -> Seq<char>
    decreases text.len(),
{
    if text.len() > 0 && text.last() == c {
        trimmed_end(text.drop_last(), c)
    } else {
        text
    }
}

/// `needle` stands somewhere in `text`.
pub open spec fn occurs_in(needle: Seq<char>, text: Seq<char>) -> bool {
    exists|at: int|
        0 <= at && at + needle.len() <= text.len() && #[trigger] text.subrange(
            at,
            at + needle.len(),
        ) == needle
}

/// The items of a list one after another, with `separator` between them.
pub open spec fn joined(items: Seq<Seq<char>>, separator: Seq<char>) -> Seq<char>
    decreases items.len(),
{
    if items.len() == 0 {
        Seq::empty()
    } else if items.len() == 1 {
        items[0]
    } else {
        joined(items.drop_last(), separator) + separator + items.last()
    }
}

/// The characters of `s` as a vector.
pub fn chars_of(s: &str) -> (chars: Vec<char>)
    ensures
        chars@ == s@,
{
    let mut chars: Vec<char> = Vec::new();
    for c in it: s.chars()
        invariant
            it.seq() == s@,
            chars@ == s@.take(it.index()),
    {
        chars.push(c);
    }
    chars
}

/// The text made of the given characters.
pub fn text_of(chars: &Vec<char>) -> (text: String)
    ensures
        text@ == chars@,
{
    let mut text = String::new();
    let mut i: usize = 0;
    while i < chars.len()
        invariant
            i <= chars@.len(),
            text@ == chars@.take(i as int),
        decreases chars@.len() - i,
    {
        text.push(chars[i]);
        i = i + 1;
    }
    text
}

/// The text that Rust's debug formatting gives for a text.
pub uninterp spec fn debug_text(text: Seq<char>) -> Seq<char>;

/// The text with every character in lower case, by Unicode's rules.
pub uninterp spec fn lowercase_text(text: Seq<char>) -> Seq<char>;

/// `s` between quotation marks, as `{:?}` shows a `str` (`<str as Debug>::fmt`).
/// What it does to each character is left to its name.
#[verifier::external_body]
pub(crate) fn quoted(s: &str) -> (shown: String)
    ensures
        shown@ == debug_text(s@),
{
    format!("{:?}", s)
}

/// `str::to_lowercase`: the lower-case equivalent of `s`, by Unicode's rules
/// and no locale. What it does to each character is left to its name.
#[verifier::external_body]
pub(crate) fn lowercase(s: &str) -> (lower: String)
    ensures
        lower@ == lowercase_text(s@),
{
    s.to_lowercase()
}

/// Whether two texts are the same.
pub fn same(a: &str, b: &str) -> (r: bool)
    ensures
        r == (a@ == b@),
{
    let left = chars_of(a);
    let right = chars_of(b);
    if left.len() != right.len() {
        return false;
    }
    assert(left@.subrange(0, right@.len() as int) =~= left@);
    stands_at(&left, 0, &right)
}

/// Whether `part` stands in `whole` from position `at` on.
fn stands_at(whole: &Vec<char>, at: usize, part: &Vec<char>) -> (r: bool)
    requires
        at + part@.len() <= whole@.len(),
    ensures
        r == (whole@.subrange(at as int, at + part@.len()) == part@),
{
    let mut i: usize = 0;
    while i < part.len()
        invariant
            i <= part@.len(),
            at + part.len() <= whole.len(),
            whole@.subrange(at as int, at + i) == part@.take(i as int),
        decreases part@.len() - i,
    {
        if whole[at + i] != part[i] {
            assert(whole@.subrange(at as int, at + part@.len())[i as int] != part@[i as int]);
            return false;
        }
        assert(whole@.subrange(at as int, at + i + 1) =~= whole@.subrange(at as int, at + i).push(
            whole@[at + i],
        ));
        assert(part@.take(i + 1) =~= part@.take(i as int).push(part@[i as int]));
        i = i + 1;
    }
    assert(part@.take(part@.len() as int) =~= part@);
    true
}

/// Whether `text` begins with `prefix`.
pub fn starts_with(text: &str, prefix: &str) -> (r: bool)
    ensures
        r == prefix@.is_prefix_of(text@),
{
    let whole = chars_of(text);
    let part = chars_of(prefix);
    if part.len() > whole.len() {
        return false;
    }
    stands_at(&whole, 0, &part)
}

/// Whether `needle` stands somewhere in `text`.
pub fn contains(text: &str, needle: &str) -> (r: bool)
    ensures
        r == occurs_in(needle@, text@),
{
    let whole = chars_of(text);
    let part = chars_of(needle);
    if part.len() > whole.len() {
        return false;
    }
    let last: usize = whole.len() - part.len();
    let mut at: usize = 0;
    while at <= last
        invariant
            whole@ == text@,
            part@ == needle@,
            last + part@.len() == whole@.len(),
            at <= last + 1,
            forall|k: int|
                0 <= k < at ==> #[trigger] text@.subrange(k, k + needle@.len()) != needle@,
        decreases last + 1 - at,
    {
        if stands_at(&whole, at, &part) {
            return true;
        }
        if at == last {
            return false;
        }
        at = at + 1;
    }
    false
}

/// `text` without the occurrences of `c` at its end.
pub fn trim_end(text: &str, c: char) -> (r: String)
    ensures
        r@ == trimmed_end(text@, c),
{
    let mut chars = chars_of(text);
    while chars.len() > 0 && chars[chars.len() - 1] == c
        invariant
            trimmed_end(chars@, c) == trimmed_end(text@, c),
        decreases chars@.len(),
    {
        let _ = chars.pop();
    }
    text_of(&chars)
}

/// The texts of a list one after another, with `separator` between them.
pub fn join(items: &Vec<String>, separator: &str) -> (r: String)
    ensures
        r@ == joined(each(items@), separator@),
{
    let mut out = String::new();
    let mut i: usize = 0;
    while i < items.len()
        invariant
            i <= items@.len(),
            out@ == joined(each(items@).take(i as int), separator@),
        decreases items@.len() - i,
    {
        if i > 0 {
            out.append(separator);
        }
        out.append(items[i].as_str());
        assert(each(items@).take(i + 1).drop_last() =~= each(items@).take(i as int));
        i = i + 1;
    }
    assert(each(items@).take(items@.len() as int) =~= each(items@));
    out
}

/// Trimming leaves a beginning of the text that does not end in the trimmed
/// character, drops nothing else, and has nothing left to do a second time.
pub proof fn trimmed_end_is_bare(text: Seq<char>, c: char)
    ensures
        trimmed_end(text, c).is_prefix_of(text),
        trimmed_end(text, c).len() > 0 ==> trimmed_end(text, c).last() != c,
        forall|i: int| trimmed_end(text, c).len() <= i < text.len() ==> #[trigger] text[i] == c,
        trimmed_end(trimmed_end(text, c), c) == trimmed_end(text, c),
    decreases text.len(),
{
    if text.len() > 0 && text.last() == c {
        let shorter = text.drop_last();
        trimmed_end_is_bare(shorter, c);
        assert forall|i: int| trimmed_end(text, c).len() <= i < text.len() implies
            #[trigger] text[i] == c by {
            if i < shorter.len() {
                assert(shorter[i] == c);
            }
        }
    }
}

/// A trimmed character at the end of a text makes no difference.
pub proof fn trailing_character_does_not_matter(text: Seq<char>, c: char)
    ensures
        trimmed_end(text.push(c), c) == trimmed_end(text, c),
{
    assert(text.push(c).drop_last() =~= text);
}

} // verus!

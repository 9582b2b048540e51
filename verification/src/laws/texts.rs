//! Laws of texts, numbers and maps.

use vstd::prelude::*;

use crate::map::{before, inserted, lookup, ordered, place_of, Place, TextMap};
use crate::number::{
    all_digits, decimal, decimal_text, digits_value, is_digit, parse_i64, parsed_i64,
    signed_text,
};
use crate::text::{
    chars_of, contains, each, each_pair, join, joined, occurs_in, optional, same, starts_with,
    text_of, trim_end,
};
use crate::time::{rfc3339_instant, time_text, utc_text, Timestamp};

verus! {

/// A list of texts has as many views as texts, each in its place; so has a
/// list of pairs, and an optional text has a view where it is there.
pub proof fn views_keep_every_item(
    texts: Seq<String>,
    pairs: Seq<(String, String)>,
    text: Option<String>,
)
    ensures
        each(texts).len() == texts.len(),
        forall|i: int| 0 <= i < texts.len() ==> #[trigger] each(texts)[i] == texts[i]@,
        each_pair(pairs).len() == pairs.len(),
        forall|i: int|
            0 <= i < pairs.len() ==> #[trigger] each_pair(pairs)[i] == (
                pairs[i].0@,
                pairs[i].1@,
            ),
        optional(text) is Some <==> text is Some,
        text is Some ==> optional(text) == Some(text->0@),
{
}

/// A text is taken apart into all of its characters, and put together again it
/// is the same.
pub proof fn characters_read_back(s: &str, chars: Vec<char>, back: String)
    requires
        call_ensures(chars_of, (s,), chars),
        call_ensures(text_of, (&chars,), back),
    ensures
        back@ == s@,
        chars@ == s@,
{
}

/// Joining nothing gives nothing, joining one item gives that item, and
/// joining two lists one behind the other puts one separator between what
/// joining each gives.
pub proof fn joined_by_parts(
    item: Seq<char>,
    front: Seq<Seq<char>>,
    behind: Seq<Seq<char>>,
    separator: Seq<char>,
)
    ensures
        joined(Seq::empty(), separator).len() == 0,
        joined(seq![item], separator) == item,
        front.len() > 0 && behind.len() > 0 ==> joined(front + behind, separator) == joined(
            front,
            separator,
        ) + separator + joined(behind, separator),
    decreases behind.len(),
{
    if front.len() > 0 && behind.len() > 0 {
        let all = front + behind;
        assert(all.drop_last() =~= front + behind.drop_last());
        if behind.len() == 1 {
            assert(front + behind.drop_last() =~= front);
        } else {
            joined_by_parts(item, front, behind.drop_last(), separator);
            assert(joined(all, separator) =~= joined(front, separator) + separator + joined(
                behind,
                separator,
            ));
        }
    }
}

/// Joining two lists one behind the other puts one separator between what
/// joining each gives; a list of one text gives that text, an empty list none.
pub proof fn lists_join_by_parts(
    front: &Vec<String>,
    behind: &Vec<String>,
    all: &Vec<String>,
    separator: &str,
    first: String,
    second: String,
    whole: String,
)
    requires
        all@ == front@ + behind@,
        call_ensures(join, (front, separator), first),
        call_ensures(join, (behind, separator), second),
        call_ensures(join, (all, separator), whole),
    ensures
        front@.len() == 0 ==> first@.len() == 0 && whole@ == second@,
        behind@.len() == 0 ==> second@.len() == 0 && whole@ == first@,
        front@.len() == 1 ==> first@ == front@[0]@,
        front@.len() > 0 && behind@.len() > 0 ==> whole@ == first@ + separator@ + second@,
{
    joined_by_parts(Seq::empty(), each(front@), each(behind@), separator@);
    assert(each(all@) =~= each(front@) + each(behind@));
    if front@.len() == 0 {
        assert(all@ =~= behind@);
        assert(each(front@) =~= Seq::empty());
    }
    if behind@.len() == 0 {
        assert(all@ =~= front@);
        assert(each(behind@) =~= Seq::empty());
    }
}

/// A needle is found wherever it stands.
pub proof fn needle_is_found(
    front: Seq<char>,
    behind: Seq<char>,
    text: &str,
    needle: &str,
    r: bool,
)
    requires
        text@ == front + needle@ + behind,
        call_ensures(contains, (text, needle), r),
    ensures
        r,
{
    assert(text@.subrange(front.len() as int, front.len() as int + needle@.len()) =~= needle@);
}

/// Where a needle is found it stands in the text.
pub proof fn found_needle_is_there(text: &str, needle: &str, r: bool) -> (parts: (
    Seq<char>,
    Seq<char>,
))
    requires
        call_ensures(contains, (text, needle), r),
    ensures
        r ==> text@ == parts.0 + needle@ + parts.1,
{
    if r {
        let at = choose|at: int|
            0 <= at && at + needle@.len() <= text@.len() && #[trigger] text@.subrange(
                at,
                at + needle@.len(),
            ) == needle@;
        let parts = (text@.take(at), text@.skip(at + needle@.len()));
        assert(text@ =~= parts.0 + text@.subrange(at, at + needle@.len()) + parts.1);
        parts
    } else {
        (Seq::empty(), Seq::empty())
    }
}

/// Occurring is standing between something in front and something behind.
pub proof fn occurring_is_standing_between(
    front: Seq<char>,
    needle: Seq<char>,
    behind: Seq<char>,
    text: Seq<char>,
) -> (parts: (Seq<char>, Seq<char>))
    ensures
        occurs_in(needle, front + needle + behind),
        occurs_in(needle, text) ==> text == parts.0 + needle + parts.1,
{
    let whole = front + needle + behind;
    assert(whole.subrange(front.len() as int, front.len() as int + needle.len()) =~= needle);
    if occurs_in(needle, text) {
        let at = choose|at: int|
            0 <= at && at + needle.len() <= text.len() && #[trigger] text.subrange(
                at,
                at + needle.len(),
            ) == needle;
        let parts = (text.take(at), text.skip(at + needle.len()));
        assert(text =~= parts.0 + text.subrange(at, at + needle.len()) + parts.1);
        parts
    } else {
        (Seq::empty(), Seq::empty())
    }
}

/// A text begins with a prefix exactly where it is that prefix and something
/// behind it, and two texts are the same exactly where each begins with the
/// other.
pub proof fn beginnings(
    text: &str,
    prefix: &str,
    begins: bool,
    begins_back: bool,
    equal: bool,
)
    requires
        call_ensures(starts_with, (text, prefix), begins),
        call_ensures(starts_with, (prefix, text), begins_back),
        call_ensures(same, (text, prefix), equal),
    ensures
        begins <==> prefix@.len() <= text@.len() && text@.take(prefix@.len() as int) == prefix@,
        equal <==> begins && begins_back,
        equal <==> text@ == prefix@,
{
    if prefix@.len() <= text@.len() {
        assert(text@.take(prefix@.len() as int) =~= text@.subrange(0, prefix@.len() as int));
        if text@.take(prefix@.len() as int) == prefix@ {
            assert(prefix@.is_prefix_of(text@));
        }
    }
    if text@ == prefix@ {
        assert(text@.take(prefix@.len() as int) =~= prefix@);
    }
    if begins && begins_back {
        assert(text@ =~= prefix@);
    }
}

/// Trimming drops the character from the end as often as it stands there, and
/// nothing else.
pub proof fn trimming_drops_the_end(text: &str, c: char, r: String)
    requires
        call_ensures(trim_end, (text, c), r),
    ensures
        r@.len() <= text@.len(),
        text@.take(r@.len() as int) == r@,
        r@.len() > 0 ==> r@[r@.len() - 1] != c,
        forall|i: int| r@.len() <= i < text@.len() ==> #[trigger] text@[i] == c,
{
    crate::text::trimmed_end_is_bare(text@, c);
    assert(text@.take(r@.len() as int) =~= r@);
}

/// A digit is written by itself, and a digit behind a number is written behind
/// what the number is written as.
pub proof fn decimal_by_digits(n: nat, digit: nat)
    requires
        digit < 10,
    ensures
        decimal(digit) == seq![(48 + digit) as char],
        n > 0 ==> decimal((10 * n + digit) as nat) == decimal(n).push((48 + digit) as char),
{
    if n > 0 {
        assert((10 * n + digit) / 10 == n);
        assert((10 * n + digit) % 10 == digit);
    }
}

/// Numbers are written digit by digit, a negative one behind a minus sign.
pub proof fn numbers_by_digits(
    n: u64,
    digit: u64,
    longer: u64,
    a: String,
    b: String,
    m: i64,
    signed: String,
)
    requires
        digit < 10,
        longer == 10 * n + digit,
        call_ensures(decimal_text, (n,), a),
        call_ensures(decimal_text, (longer,), b),
        call_ensures(signed_text, (m,), signed),
    ensures
        n < 10 ==> a@ == seq![(48 + n) as char],
        n > 0 ==> b@ == a@.push((48 + digit) as char),
        m < 0 ==> signed@ == seq!['-'] + decimal((-m) as nat),
        m >= 0 ==> signed@ == decimal(m as nat),
{
    decimal_by_digits(n as nat, digit as nat);
    if n < 10 {
        decimal_by_digits(0, n as nat);
    }
}

/// The value of digits: none are worth nothing, and one more digit makes ten
/// times the value and the digit.
pub proof fn digits_by_digits(digits: Seq<char>, c: char)
    ensures
        digits_value(Seq::empty()) == 0,
        digits_value(digits.push(c)) == 10 * digits_value(digits) + (c as int - 48),
{
    assert(digits.push(c).drop_last() =~= digits);
}

/// Digits only, as a text, are not empty and each between `0` and `9`.
pub proof fn digits_only(text: Seq<char>)
    ensures
        all_digits(text) <==> text.len() > 0 && forall|i: int|
            0 <= i < text.len() ==> '0' <= #[trigger] text[i] && text[i] <= '9',
{
    if all_digits(text) {
        assert forall|i: int| 0 <= i < text.len() implies '0' <= #[trigger] text[i] && text[i]
            <= '9' by {
            assert(is_digit(text[i]));
        }
    }
}

/// Digits stand for their value, with or without a plus sign in front of them,
/// and for its negative behind a minus sign, where 64 bits hold it.
pub proof fn signs_and_ranges(digits: Seq<char>)
    requires
        digits.len() > 0,
        forall|i: int|
            0 <= i < digits.len() ==> '0' <= #[trigger] digits[i] && digits[i] <= '9',
    ensures
        ({
            let value = digits_value(digits);
            let plain = if value <= 0x7fff_ffff_ffff_ffff {
                Some(value)
            } else {
                None
            };
            &&& parsed_i64(digits) == plain
            &&& parsed_i64(seq!['+'] + digits) == plain
            &&& parsed_i64(seq!['-'] + digits) == if value <= 0x8000_0000_0000_0000 {
                Some(-value)
            } else {
                None
            }
        }),
{
    assert forall|i: int| 0 <= i < digits.len() implies is_digit(#[trigger] digits[i]) by {}
    lemma_digits_value_nonnegative(digits);
    assert('0' <= digits[0] && digits[0] <= '9');
    assert((seq!['+'] + digits).drop_first() =~= digits);
    assert((seq!['-'] + digits).drop_first() =~= digits);
}

proof fn lemma_digits_value_nonnegative(digits: Seq<char>)
    requires
        forall|i: int|
            0 <= i < digits.len() ==> '0' <= #[trigger] digits[i] && digits[i] <= '9',
    ensures
        0 <= digits_value(digits),
    decreases digits.len(),
{
    if digits.len() > 0 {
        lemma_digits_value_nonnegative(digits.drop_last());
        assert('0' <= digits[digits.len() - 1]);
    }
}

/// Only digits, behind one sign or none, stand for a number.
pub proof fn nothing_else_is_a_number(text: &str, n: Option<i64>)
    requires
        call_ensures(parse_i64, (text,), n),
    ensures
        n is Some ==> {
            let start: int = if text@.len() > 0 && (text@[0] == '-' || text@[0] == '+') {
                1
            } else {
                0
            };
            text@.len() > start && forall|i: int|
                start <= i < text@.len() ==> '0' <= #[trigger] text@[i] && text@[i] <= '9'
        },
        n is Some ==> parsed_i64(text@) == Some(n->0 as int),
        n is None ==> parsed_i64(text@) is None,
{
    if n is Some {
        let signed = text@.len() > 0 && (text@[0] == '-' || text@[0] == '+');
        let start: int = if signed {
            1
        } else {
            0
        };
        let digits = if signed {
            text@.drop_first()
        } else {
            text@
        };
        assert(all_digits(digits));
        assert forall|i: int| start <= i < text@.len() implies '0' <= #[trigger] text@[i]
            && text@[i] <= '9' by {
            assert(is_digit(digits[i - start]));
        }
    }
}

/// A number that is written reads back.
pub proof fn written_number_reads_back(n: i64, text: String, view: &str, back: Option<i64>)
    requires
        call_ensures(signed_text, (n,), text),
        view@ == text@,
        call_ensures(parse_i64, (view,), back),
    ensures
        back == Some(n),
{
    crate::number::decimal_reads_back(n);
}

/// An instant is written as date and time of UTC.
pub proof fn instants_are_written_in_utc(at: Timestamp, text: String)
    requires
        call_ensures(time_text, (at,), text),
    ensures
        text@ == utc_text(at.secs as int, at.nanos as int, "%Y-%m-%dT%H:%M:%SZ"@),
        at.nanos < 1_000_000_000 && -62_167_219_200 <= at.secs <= 253_402_300_799
            ==> rfc3339_instant(text@) == Some((at.secs as int, 0int)),
{
}

/// Of two texts with a common beginning, the one comes first whose next
/// character is smaller, or that ends there. No text comes before itself.
pub proof fn order_of_texts(
    common: Seq<char>,
    x: char,
    y: char,
    a: Seq<char>,
    b: Seq<char>,
)
    ensures
        x < y ==> before(common + seq![x] + a, common + seq![y] + b),
        x < y ==> !before(common + seq![y] + b, common + seq![x] + a),
        before(common, common + seq![x] + a),
        !before(common + seq![x] + a, common),
        !before(common, common),
    decreases common.len(),
{
    let small = common + seq![x] + a;
    let large = common + seq![y] + b;
    if common.len() > 0 {
        let rest = common.drop_first();
        order_of_texts(rest, x, y, a, b);
        assert(small.drop_first() =~= rest + seq![x] + a);
        assert(large.drop_first() =~= rest + seq![y] + b);
    }
}

/// Where one text stands to another, turned round.
pub proof fn places_turn_round(a: &str, b: &str, there: Place, back: Place)
    requires
        call_ensures(place_of, (a, b), there),
        call_ensures(place_of, (b, a), back),
    ensures
        there == Place::Same <==> a@ == b@,
        there == Place::Before <==> back == Place::After,
        there == Place::Before ==> before(a@, b@),
        there == Place::After ==> before(b@, a@),
{
    lemma_one_way(a@, b@);
}

proof fn lemma_one_way(a: Seq<char>, b: Seq<char>)
    ensures
        !(before(a, b) && before(b, a)),
        a == b ==> !before(a, b),
    decreases a.len(),
{
    if a.len() > 0 && b.len() > 0 {
        lemma_one_way(a.drop_first(), b.drop_first());
    }
}

/// In an ordered map each key has the value that stands beside it, and no
/// other key has one.
pub proof fn lookup_finds_what_is_there<V>(entries: Seq<(Seq<char>, V)>, key: Seq<char>)
    requires
        ordered(entries),
    ensures
        forall|i: int|
            0 <= i < entries.len() && #[trigger] entries[i].0 == key ==> lookup(entries, key)
                == Some(entries[i].1),
        (forall|i: int| 0 <= i < entries.len() ==> #[trigger] entries[i].0 != key) ==> lookup(
            entries,
            key,
        ) is None,
    decreases entries.len(),
{
    if entries.len() > 0 {
        let rest = entries.drop_first();
        assert forall|i: int, j: int|
            #![trigger rest[i], rest[j]]
            0 <= i < j < rest.len() implies before(rest[i].0, rest[j].0) by {
            assert(before(entries[i + 1].0, entries[j + 1].0));
        }
        lookup_finds_what_is_there(rest, key);
        assert forall|i: int|
            0 <= i < entries.len() && #[trigger] entries[i].0 == key implies lookup(entries, key)
            == Some(entries[i].1) by {
            if i > 0 {
                assert(before(entries[0].0, entries[i].0));
                lemma_one_way(entries[0].0, entries[i].0);
                assert(rest[i - 1].0 == key);
            }
        }
        if forall|i: int| 0 <= i < entries.len() ==> #[trigger] entries[i].0 != key {
            assert(entries[0].0 != key);
            assert forall|i: int| 0 <= i < rest.len() implies #[trigger] rest[i].0 != key by {
                assert(entries[i + 1].0 != key);
            }
        }
    }
}

/// A map gives the value of a key, and its entries in their order.
pub proof fn maps_give_what_they_hold<V>(
    map: &TextMap<V>,
    key: &str,
    value: Option<&V>,
    n: usize,
    i: usize,
    key_there: &String,
    value_there: &V,
)
    requires
        i < n,
        call_ensures(TextMap::<V>::get, (map, key), value),
        call_ensures(TextMap::<V>::len, (map,), n),
        call_ensures(TextMap::<V>::key_at, (map, i), key_there),
        call_ensures(TextMap::<V>::value_at, (map, i), value_there),
    ensures
        ordered(map@),
        n == map@.len(),
        map@[i as int] == (key_there@, *value_there),
        key@ == key_there@ ==> value == Some(value_there),
        (forall|k: int| 0 <= k < map@.len() ==> #[trigger] map@[k].0 != key@) ==> value is None,
{
    lookup_finds_what_is_there(map@, key@);
    assert(map@[i as int].0 == key_there@);
}

/// Setting a value adds an entry where the key is new, and none where it is
/// not.
pub proof fn insert_counts<V>(entries: Seq<(Seq<char>, V)>, key: Seq<char>, value: V)
    requires
        ordered(entries),
    ensures
        inserted(entries, key, value).len() == entries.len() + if lookup(entries, key) is Some {
            0int
        } else {
            1int
        },
    decreases entries.len(),
{
    if entries.len() > 0 {
        let rest = entries.drop_first();
        assert forall|i: int, j: int|
            #![trigger rest[i], rest[j]]
            0 <= i < j < rest.len() implies before(rest[i].0, rest[j].0) by {
            assert(before(entries[i + 1].0, entries[j + 1].0));
        }
        insert_counts(rest, key, value);
        if entries[0].0 != key && before(key, entries[0].0) {
            lookup_finds_what_is_there(entries, key);
            assert forall|i: int| 0 <= i < entries.len() implies #[trigger] entries[i].0
                != key by {
                if i > 0 && entries[i].0 == key {
                    assert(before(entries[0].0, entries[i].0));
                    lemma_one_way(entries[0].0, key);
                }
            }
        }
    }
}

} // verus!

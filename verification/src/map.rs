//! A map from texts to values that is walked in the order of its keys.

use vstd::prelude::*;

use crate::text::chars_of;

verus! {

/// How one text stands to another in the order of their characters.
#[derive(Clone, Copy, Debug, PartialEq, Eq, Structural)]
pub enum Place {
    Before,
    Same,
    After,
}

/// `a` comes before `b`: at the first place where they differ, `a` has the
/// smaller character or ends.
pub open spec fn before(a: Seq<char>, b: Seq<char>) -> bool
    decreases a.len(),
{
    if b.len() == 0 {
        false
    } else if a.len() == 0 {
        true
    } else if a[0] == b[0] {
        before(a.drop_first(), b.drop_first())
    } else {
        a[0] < b[0]
    }
}

/// Exactly one of two different texts comes before the other.
proof fn lemma_before_total(a: Seq<char>, b: Seq<char>)
    ensures
        a == b || before(a, b) || before(b, a),
        !(before(a, b) && before(b, a)),
        a == b ==> !before(a, b),
    decreases a.len(),
{
    if a.len() > 0 && b.len() > 0 {
        lemma_before_total(a.drop_first(), b.drop_first());
        if a[0] == b[0] && a.drop_first() == b.drop_first() {
            assert(a =~= seq![a[0]] + a.drop_first());
            assert(b =~= seq![b[0]] + b.drop_first());
        }
    } else if a.len() == 0 && b.len() == 0 {
        assert(a =~= b);
    }
}

proof fn lemma_before_transitive(a: Seq<char>, b: Seq<char>, c: Seq<char>)
    requires
        before(a, b),
        before(b, c),
    ensures
        before(a, c),
    decreases a.len(),
{
    if a.len() > 0 && a[0] == b[0] && b[0] == c[0] {
        lemma_before_transitive(a.drop_first(), b.drop_first(), c.drop_first());
    }
}

/// Dropping a common beginning leaves the order as it is.
proof fn lemma_before_skip(a: Seq<char>, b: Seq<char>, n: int)
    requires
        0 <= n <= a.len(),
        n <= b.len(),
        a.take(n) == b.take(n),
    ensures
        before(a, b) == before(a.skip(n), b.skip(n)),
    decreases n,
{
    if n == 0 {
        assert(a.skip(0) =~= a);
        assert(b.skip(0) =~= b);
    } else {
        assert(a[0] == a.take(n)[0] && b[0] == b.take(n)[0]);
        assert(a.drop_first().take(n - 1) =~= a.take(n).drop_first());
        assert(b.drop_first().take(n - 1) =~= b.take(n).drop_first());
        lemma_before_skip(a.drop_first(), b.drop_first(), n - 1);
        assert(a.drop_first().skip(n - 1) =~= a.skip(n));
        assert(b.drop_first().skip(n - 1) =~= b.skip(n));
    }
}

/// Where `a` stands to `b`.
pub fn place_of(a: &str, b: &str) -> (place: Place)
    ensures
        match place {
            Place::Before => before(a@, b@),
            Place::Same => a@ == b@,
            Place::After => before(b@, a@),
        },
{
    let left = chars_of(a);
    let right = chars_of(b);
    let mut i: usize = 0;
    while i < left.len() && i < right.len() && left[i] == right[i]
        invariant
            left@ == a@,
            right@ == b@,
            i <= left@.len(),
            i <= right@.len(),
            a@.take(i as int) == b@.take(i as int),
        decreases left@.len() - i,
    {
        assert(a@.take(i + 1) =~= a@.take(i as int).push(a@[i as int]));
        assert(b@.take(i + 1) =~= b@.take(i as int).push(b@[i as int]));
        i = i + 1;
    }
    proof {
        lemma_before_skip(a@, b@, i as int);
        lemma_before_skip(b@, a@, i as int);
    }
    if i == left.len() && i == right.len() {
        assert(a@.take(i as int) =~= a@);
        assert(b@.take(i as int) =~= b@);
        Place::Same
    } else if i == left.len() {
        Place::Before
    } else if i == right.len() {
        Place::After
    } else if left[i] < right[i] {
        Place::Before
    } else {
        Place::After
    }
}

/// The keys are in strict order: none occurs twice.
pub open spec fn ordered<V>(entries: Seq<(Seq<char>, V)>) -> bool {
    forall|i: int, j: int|
        #![trigger entries[i], entries[j]]
        0 <= i < j < entries.len() ==> before(entries[i].0, entries[j].0)
}

/// The value that belongs to a key, if the key occurs.
pub open spec fn lookup<V>(entries: Seq<(Seq<char>, V)>, key: Seq<char>) -> Option<V>
    decreases entries.len(),
{
    if entries.len() == 0 {
        None
    } else if entries[0].0 == key {
        Some(entries[0].1)
    } else {
        lookup(entries.drop_first(), key)
    }
}

/// The entries with a value set for a key, in the place that the key has in the order.
pub open spec fn inserted<V>(
    entries: Seq<(Seq<char>, V)>,
    key: Seq<char>,
    value: V,
) -> Seq<(Seq<char>, V)>
    decreases entries.len(),
{
    if entries.len() == 0 {
        seq![(key, value)]
    } else if entries[0].0 == key {
        seq![(key, value)] + entries.drop_first()
    } else if before(key, entries[0].0) {
        seq![(key, value)] + entries
    } else {
        seq![entries[0]] + inserted(entries.drop_first(), key, value)
    }
}

proof fn lemma_inserted_ordered<V>(entries: Seq<(Seq<char>, V)>, key: Seq<char>, value: V)
    requires
        ordered(entries),
    ensures
        ordered(inserted(entries, key, value)),
        forall|i: int|
            0 <= i < inserted(entries, key, value).len() ==> #[trigger] inserted(
                entries,
                key,
                value,
            )[i].0 == key || exists|j: int|
                0 <= j < entries.len() && entries[j].0 == inserted(entries, key, value)[i].0,
    decreases entries.len(),
{
    let result = inserted(entries, key, value);
    if entries.len() > 0 {
        let rest = entries.drop_first();
        assert(ordered(rest)) by {
            assert forall|i: int, j: int|
                #![trigger rest[i], rest[j]]
                0 <= i < j < rest.len() implies before(rest[i].0, rest[j].0) by {
                assert(before(entries[i + 1].0, entries[j + 1].0));
            }
        }
        lemma_before_total(key, entries[0].0);
        if entries[0].0 == key {
            assert forall|i: int, j: int|
                #![trigger result[i], result[j]]
                0 <= i < j < result.len() implies before(result[i].0, result[j].0) by {
                assert(before(entries[i].0, entries[j].0));
            }
            assert forall|i: int| 0 <= i < result.len() implies #[trigger] result[i].0 == key
                || exists|j: int| 0 <= j < entries.len() && entries[j].0 == result[i].0 by {
                assert(entries[i].0 == result[i].0);
            }
        } else if before(key, entries[0].0) {
            assert forall|i: int, j: int|
                #![trigger result[i], result[j]]
                0 <= i < j < result.len() implies before(result[i].0, result[j].0) by {
                if i == 0 {
                    if j > 1 {
                        assert(before(entries[0].0, entries[j - 1].0));
                        lemma_before_transitive(key, entries[0].0, entries[j - 1].0);
                    }
                } else {
                    assert(before(entries[i - 1].0, entries[j - 1].0));
                }
            }
            assert forall|i: int| 0 <= i < result.len() implies #[trigger] result[i].0 == key
                || exists|j: int| 0 <= j < entries.len() && entries[j].0 == result[i].0 by {
                if i > 0 {
                    assert(entries[i - 1].0 == result[i].0);
                }
            }
        } else {
            lemma_inserted_ordered(rest, key, value);
            let tail = inserted(rest, key, value);
            assert forall|i: int, j: int|
                #![trigger result[i], result[j]]
                0 <= i < j < result.len() implies before(result[i].0, result[j].0) by {
                assert(result[j] == tail[j - 1]);
                if i == 0 {
                    if tail[j - 1].0 != key {
                        let k = choose|k: int| 0 <= k < rest.len() && rest[k].0 == tail[j - 1].0;
                        assert(before(entries[0].0, entries[k + 1].0));
                    }
                } else {
                    assert(result[i] == tail[i - 1]);
                }
            }
            assert forall|i: int| 0 <= i < result.len() implies #[trigger] result[i].0 == key
                || exists|j: int| 0 <= j < entries.len() && entries[j].0 == result[i].0 by {
                if i == 0 {
                    assert(entries[0].0 == result[0].0);
                } else if tail[i - 1].0 != key {
                    let k = choose|k: int| 0 <= k < rest.len() && rest[k].0 == tail[i - 1].0;
                    assert(entries[k + 1].0 == result[i].0);
                }
            }
        }
    }
}

/// Setting a value for a key of an ordered map keeps the order, gives the
/// value back for that key, and leaves every other key as it was.
pub proof fn insert_then_lookup<V>(
    entries: Seq<(Seq<char>, V)>,
    key: Seq<char>,
    value: V,
    other: Seq<char>,
)
    requires
        ordered(entries),
    ensures
        ordered(inserted(entries, key, value)),
        lookup(inserted(entries, key, value), key) == Some(value),
        other != key ==> lookup(inserted(entries, key, value), other) == lookup(entries, other),
    decreases entries.len(),
{
    lemma_inserted_ordered(entries, key, value);
    let result = inserted(entries, key, value);
    if entries.len() == 0 {
        assert(result.drop_first() =~= entries);
    } else {
        let rest = entries.drop_first();
        assert(ordered(rest)) by {
            assert forall|i: int, j: int|
                #![trigger rest[i], rest[j]]
                0 <= i < j < rest.len() implies before(rest[i].0, rest[j].0) by {
                assert(before(entries[i + 1].0, entries[j + 1].0));
            }
        }
        if entries[0].0 == key {
            assert(result.drop_first() =~= rest);
        } else if before(key, entries[0].0) {
            assert(result.drop_first() =~= entries);
        } else {
            assert(result.drop_first() =~= inserted(rest, key, value));
            insert_then_lookup(rest, key, value, other);
        }
    }
}

/// A map from texts to values. Each key occurs once, and the entries stand in
/// the order of their keys.
pub struct TextMap<V> {
    entries: Vec<(String, V)>,
}

/// The entries with the characters of their keys.
pub open spec fn keyed<V>(entries: Seq<(String, V)>) -> Seq<(Seq<char>, V)> {
    Seq::new(entries.len(), |i: int| (entries[i].0@, entries[i].1))
}

impl<V> View for TextMap<V> {
    type V = Seq<(Seq<char>, V)>;

    /// The entries in the order of their keys.
    closed spec fn view(&self) -> Seq<(Seq<char>, V)> {
        keyed(self.entries@)
    }
}

impl<V> TextMap<V> {
    #[verifier::type_invariant]
    spec fn wf(self) -> bool {
        ordered(keyed(self.entries@))
    }

    /// A map without entries.
    pub fn new() -> (map: Self)
        ensures
            map@ == Seq::<(Seq<char>, V)>::empty(),
    {
        TextMap { entries: Vec::new() }
    }

    /// Sets the value of a key, in place of the one that it had.
    pub fn insert(&mut self, key: String, value: V)
        ensures
            final(self)@ == inserted(old(self)@, key@, value),
            ordered(final(self)@),
    {
        proof {
            use_type_invariant(&*self);
        }
        let ghost before_all = keyed(self.entries@);
        let mut entries: Vec<(String, V)> = Vec::new();
        std::mem::swap(&mut entries, &mut self.entries);
        let mut i: usize = 0;
        let mut place: Place = Place::After;
        assert(before_all.take(0) =~= Seq::empty());
        assert(before_all.skip(0) =~= before_all);
        while i < entries.len()
            invariant_except_break
                i <= entries@.len(),
            invariant
                before_all == keyed(entries@),
                inserted(before_all, key@, value) =~= before_all.take(i as int) + inserted(
                    before_all.skip(i as int),
                    key@,
                    value,
                ),
            ensures
                i <= entries@.len(),
                i < entries@.len() ==> match place {
                    Place::Before => false,
                    Place::Same => entries@[i as int].0@ == key@,
                    Place::After => before(key@, entries@[i as int].0@),
                },
            decreases entries@.len() - i,
        {
            place = place_of(entries[i].0.as_str(), key.as_str());
            match place {
                Place::Before => {},
                Place::Same => {
                    break;
                },
                Place::After => {
                    break;
                },
            }
            proof {
                lemma_before_total(before_all[i as int].0, key@);
                let rest = before_all.skip(i as int);
                assert(rest.drop_first() =~= before_all.skip(i + 1));
                assert(before_all.take(i + 1) =~= before_all.take(i as int) + seq![rest[0]]);
            }
            i = i + 1;
        }
        proof {
            lemma_inserted_ordered(before_all, key@, value);
            if i < entries@.len() {
                lemma_before_total(key@, before_all[i as int].0);
            }
        }
        let ghost rest = before_all.skip(i as int);
        if i < entries.len() && place == Place::Same {
            let _ = entries.remove(i);
            assert(keyed(entries@) =~= before_all.remove(i as int));
        }
        let ghost kept = keyed(entries@);
        entries.insert(i, (key, value));
        proof {
            assert(keyed(entries@) =~= kept.insert(i as int, (key@, value)));
            assert(keyed(entries@) =~= inserted(before_all, key@, value));
        }
        self.entries = entries;
    }

    /// The value of a key.
    pub fn get(&self, key: &str) -> (value: Option<&V>)
        ensures
            match value {
                Some(v) => lookup(self@, key@) == Some(*v),
                None => lookup(self@, key@) is None,
            },
    {
        let mut i: usize = 0;
        assert(self@.skip(0) =~= self@);
        while i < self.entries.len()
            invariant
                i <= self.entries@.len(),
                self@ == keyed(self.entries@),
                lookup(self@, key@) == lookup(self@.skip(i as int), key@),
            decreases self.entries@.len() - i,
        {
            assert(self@.skip(i as int).drop_first() =~= self@.skip(i + 1));
            match place_of(self.entries[i].0.as_str(), key) {
                Place::Same => {
                    return Some(&self.entries[i].1);
                },
                Place::Before => {},
                Place::After => {},
            }
            proof {
                lemma_before_total(self@[i as int].0, key@);
            }
            i = i + 1;
        }
        None
    }

    /// How many entries there are.
    pub fn len(&self) -> (n: usize)
        ensures
            n == self@.len(),
            ordered(self@),
    {
        proof {
            use_type_invariant(self);
        }
        self.entries.len()
    }

    /// The key at a place in the order.
    pub fn key_at(&self, i: usize) -> (key: &String)
        requires
            i < self@.len(),
        ensures
            key@ == self@[i as int].0,
    {
        &self.entries[i].0
    }

    /// The value at a place in the order.
    pub fn value_at(&self, i: usize) -> (value: &V)
        requires
            i < self@.len(),
        ensures
            *value == self@[i as int].1,
    {
        &self.entries[i].1
    }
}

} // verus!

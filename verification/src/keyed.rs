//! A map from text keys to values, kept in ascending key order.

use vstd::prelude::*;

use crate::text::chars_of;

verus! {

/// Lexicographic order of texts by code point.
pub open spec fn text_before(a: Seq<char>, b: Seq<char>) -> bool
    decreases a.len(),
{
    if b.len() == 0 {
        false
    } else if a.len() == 0 {
        true
    } else if a[0] == b[0] {
        text_before(a.skip(1), b.skip(1))
    } else {
        a[0] < b[0]
    }
}

/// No text stands before itself.
pub proof fn lemma_before_irreflexive(a: Seq<char>)
    ensures
        !text_before(a, a),
    decreases a.len(),
{
    if a.len() > 0 {
        lemma_before_irreflexive(a.skip(1));
    }
}

/// The order of texts is transitive.
pub proof fn lemma_before_transitive(a: Seq<char>, b: Seq<char>, c: Seq<char>)
    requires
        text_before(a, b),
        text_before(b, c),
    ensures
        text_before(a, c),
    decreases a.len(),
{
    if a.len() > 0 && a[0] == b[0] && b[0] == c[0] {
        lemma_before_transitive(a.skip(1), b.skip(1), c.skip(1));
    }
}

/// Two texts that are not the same stand in exactly one order.
pub proof fn lemma_before_total(a: Seq<char>, b: Seq<char>)
    ensures
        a == b || text_before(a, b) || text_before(b, a),
        !(text_before(a, b) && text_before(b, a)),
    decreases a.len(),
{
    if a.len() > 0 && b.len() > 0 {
        if a[0] == b[0] {
            lemma_before_total(a.skip(1), b.skip(1));
            if a.skip(1) == b.skip(1) {
                assert(a == seq![a[0]] + a.skip(1));
                assert(b == seq![b[0]] + b.skip(1));
            }
        }
    } else if a.len() == 0 && b.len() == 0 {
        assert(a == b);
    }
}

/// The relative order of two texts.
#[derive(Clone, Copy, Debug, PartialEq, Eq, Structural)]
pub enum TextOrder {
    /// The first text stands before the second.
    Before,
    /// The texts are the same.
    Same,
    /// The first text stands after the second.
    After,
}

/// Order two texts.
pub fn text_order(a: &str, b: &str) -> (order: TextOrder)
    ensures
        order == TextOrder::Before <==> text_before(a@, b@),
        order == TextOrder::Same <==> a@ == b@,
        order == TextOrder::After <==> text_before(b@, a@),
{
    let x = chars_of(a);
    let y = chars_of(b);
    let mut i: usize = 0;
    assert(a@.skip(0) == a@ && b@.skip(0) == b@);
    proof {
        lemma_before_total(a@, b@);
        lemma_before_irreflexive(a@);
    }
    while i < x.len() && i < y.len()
        invariant
            i <= x.len(),
            i <= y.len(),
            x@ == a@,
            y@ == b@,
            a@.take(i as int) == b@.take(i as int),
            text_before(a@, b@) == text_before(a@.skip(i as int), b@.skip(i as int)),
            text_before(b@, a@) == text_before(b@.skip(i as int), a@.skip(i as int)),
            a@ == b@ ==> !text_before(a@, b@),
        decreases x.len() - i,
    {
        if x[i] != y[i] {
            assert(a@.skip(i as int)[0] == x[i as int]);
            assert(b@.skip(i as int)[0] == y[i as int]);
            if x[i] < y[i] {
                return TextOrder::Before;
            } else {
                return TextOrder::After;
            }
        }
        assert(a@.skip(i as int).skip(1) == a@.skip(i + 1));
        assert(b@.skip(i as int).skip(1) == b@.skip(i + 1));
        assert(a@.take(i + 1) == a@.take(i as int).push(a@[i as int]));
        assert(b@.take(i + 1) == b@.take(i as int).push(b@[i as int]));
        i += 1;
    }
    if i < y.len() {
        TextOrder::Before
    } else if i < x.len() {
        TextOrder::After
    } else {
        assert(a@.take(i as int) == a@ && b@.take(i as int) == b@);
        TextOrder::Same
    }
}

/// A map from text keys to values, held as entries in strictly ascending key order.
#[derive(Clone, Debug)]
pub struct TextMap<V> {
    /// The entries in key order.
    pub entries: Vec<(String, V)>,
}

/// Whether the keys of `entries` ascend strictly.
pub open spec fn keys_ascend<V>(entries: Seq<(String, V)>) -> bool {
    forall|i: int, j: int|
        0 <= i < j < entries.len() ==> text_before(
            (#[trigger] entries[i]).0@,
            (#[trigger] entries[j]).0@,
        )
}

/// Whether some entry has the key.
pub open spec fn has_key<V>(entries: Seq<(String, V)>, key: Seq<char>) -> bool {
    exists|i: int| 0 <= i < entries.len() && (#[trigger] entries[i]).0@ == key
}

/// The position of the entry with the key.
pub open spec fn key_index<V>(entries: Seq<(String, V)>, key: Seq<char>) -> int {
    choose|i: int| 0 <= i < entries.len() && (#[trigger] entries[i]).0@ == key
}

/// Whether `after` is `before` with one entry set: put in the place of that with the same key, or
/// put between the others where there is none.
pub open spec fn entries_set<V>(
    before: Seq<(String, V)>,
    entry: (String, V),
    after: Seq<(String, V)>,
) -> bool {
    if has_key(before, entry.0@) {
        after == before.update(key_index(before, entry.0@), entry)
    } else {
        exists|at: int|
            0 <= at <= before.len() && after == #[trigger] before.insert(at, entry)
    }
}

/// The map that the entries denote.
pub open spec fn entry_map<V>(entries: Seq<(String, V)>) -> Map<Seq<char>, V> {
    Map::new(
        |key: Seq<char>| has_key(entries, key),
        |key: Seq<char>| entries[key_index(entries, key)].1,
    )
}

/// The entry with a given key is unique, and the map holds its value.
pub proof fn lemma_entry_at<V>(entries: Seq<(String, V)>, i: int)
    requires
        keys_ascend(entries),
        0 <= i < entries.len(),
    ensures
        key_index(entries, entries[i].0@) == i,
        entry_map(entries).contains_key(entries[i].0@),
        entry_map(entries)[entries[i].0@] == entries[i].1,
{
    let key = entries[i].0@;
    assert(has_key(entries, key));
    let j = key_index(entries, key);
    lemma_before_irreflexive(key);
    if j < i {
        assert(text_before(entries[j].0@, entries[i].0@));
    } else if i < j {
        assert(text_before(entries[i].0@, entries[j].0@));
    }
}

/// Entries that denote the empty map are none.
pub proof fn lemma_empty<V>(entries: Seq<(String, V)>)
    requires
        entry_map(entries) == Map::<Seq<char>, V>::empty(),
    ensures
        entries.len() == 0,
{
    if entries.len() > 0 {
        assert(has_key(entries, entries[0].0@));
        assert(entry_map(entries).contains_key(entries[0].0@));
    }
}

impl<V> View for TextMap<V> {
    type V = Map<Seq<char>, V>;

    open spec fn view(&self) -> Map<Seq<char>, V> {
        entry_map(self.entries@)
    }
}

impl<V> TextMap<V> {
    /// The entries stand in strictly ascending key order.
    pub open spec fn wf(&self) -> bool {
        keys_ascend(self.entries@)
    }

    /// The empty map.
    pub fn new() -> (map: TextMap<V>)
        ensures
            map.wf(),
            map@ == Map::<Seq<char>, V>::empty(),
    {
        let map: TextMap<V> = TextMap { entries: Vec::new() };
        assert(map@ =~= Map::<Seq<char>, V>::empty());
        map
    }

    /// The position of the key, or the position at which it would be inserted.
    pub fn find(&self, key: &str) -> (found: (bool, usize))
        requires
            self.wf(),
        ensures
            found.1 <= self.entries.len(),
            found.0 <==> self@.contains_key(key@),
            found.0 ==> found.1 < self.entries.len() && self.entries[found.1 as int].0@ == key@
                && self@[key@] == self.entries[found.1 as int].1,
            !found.0 ==> (forall|i: int|
                0 <= i < found.1 ==> text_before((#[trigger] self.entries[i]).0@, key@)) && (forall|
                i: int,
            |
                found.1 <= i < self.entries.len() ==> text_before(
                    key@,
                    (#[trigger] self.entries[i]).0@,
                )),
    {
        let mut low: usize = 0;
        let mut high: usize = self.entries.len();
        while low < high
            invariant
                self.wf(),
                low <= high <= self.entries.len(),
                forall|i: int| 0 <= i < low ==> text_before((#[trigger] self.entries[i]).0@, key@),
                forall|i: int|
                    high <= i < self.entries.len() ==> text_before(
                        key@,
                        (#[trigger] self.entries[i]).0@,
                    ),
            decreases high - low,
        {
            let middle: usize = low + (high - low) / 2;
            match text_order(self.entries[middle].0.as_str(), key) {
                TextOrder::Same => {
                    proof {
                        lemma_entry_at(self.entries@, middle as int);
                    }
                    return (true, middle);
                },
                TextOrder::Before => {
                    proof {
                        assert forall|i: int| 0 <= i < middle + 1 implies text_before(
                            (#[trigger] self.entries[i]).0@,
                            key@,
                        ) by {
                            if i < middle {
                                lemma_before_transitive(
                                    self.entries[i].0@,
                                    self.entries[middle as int].0@,
                                    key@,
                                );
                            }
                        }
                    }
                    low = middle + 1;
                },
                TextOrder::After => {
                    proof {
                        assert forall|i: int| middle <= i < self.entries.len() implies text_before(
                            key@,
                            (#[trigger] self.entries[i]).0@,
                        ) by {
                            if middle < i {
                                lemma_before_transitive(
                                    key@,
                                    self.entries[middle as int].0@,
                                    self.entries[i].0@,
                                );
                            }
                        }
                    }
                    high = middle;
                },
            }
        }
        proof {
            lemma_before_irreflexive(key@);
            if has_key(self.entries@, key@) {
                let i = key_index(self.entries@, key@);
                assert(self.entries[i].0@ == key@);
                assert(i < low || high <= i);
            }
        }
        (false, low)
    }

    /// The value of the key.
    pub fn get(&self, key: &str) -> (value: Option<&V>)
        requires
            self.wf(),
        ensures
            match value {
                Some(v) => self@.contains_key(key@) && *v == self@[key@],
                None => !self@.contains_key(key@),
            },
    {
        let (found, at) = self.find(key);
        if found {
            Some(&self.entries[at].1)
        } else {
            None
        }
    }

    /// Whether the key is present.
    pub fn contains_key(&self, key: &str) -> (found: bool)
        requires
            self.wf(),
        ensures
            found == self@.contains_key(key@),
    {
        self.find(key).0
    }

    /// Set the value of the key.
    pub fn insert(&mut self, key: String, value: V)
        requires
            old(self).wf(),
        ensures
            final(self).wf(),
            final(self)@ == old(self)@.insert(key@, value),
            entries_set(old(self).entries@, (key, value), final(self).entries@),
    {
        let (found, at) = self.find(key.as_str());
        let ghost before = self.entries@;
        let ghost name = key@;
        if found {
            self.entries.set(at, (key, value));
            proof {
                lemma_entry_at(before, at as int);
                lemma_replace(before, at as int, self.entries@);
            }
        } else {
            self.entries.insert(at, (key, value));
            proof {
                lemma_insert(before, at as int, self.entries@);
            }
        }
        assert(self@ =~= old(self)@.insert(name, value));
    }

    /// Remove the key and hand its value out.
    pub fn remove(&mut self, key: &str) -> (value: Option<V>)
        requires
            old(self).wf(),
        ensures
            final(self).wf(),
            final(self)@ == old(self)@.remove(key@),
            match value {
                Some(v) => old(self)@.contains_key(key@) && v == old(self)@[key@]
                    && final(self).entries@ == old(self).entries@.remove(
                    key_index(old(self).entries@, key@),
                ),
                None => !old(self)@.contains_key(key@) && final(self).entries@ == old(
                    self,
                ).entries@,
            },
    {
        let (found, at) = self.find(key);
        let ghost before = self.entries@;
        if found {
            let (_key, value) = self.entries.remove(at);
            proof {
                lemma_entry_at(before, at as int);
                lemma_remove(before, at as int, self.entries@);
            }
            assert(self@ =~= old(self)@.remove(key@));
            Some(value)
        } else {
            assert(self@ =~= old(self)@.remove(key@));
            None
        }
    }
}

/// Replacing the value of one entry replaces the value of its key.
pub proof fn lemma_replace<V>(before: Seq<(String, V)>, at: int, after: Seq<(String, V)>)
    requires
        keys_ascend(before),
        0 <= at < before.len(),
        after.len() == before.len(),
        after[at].0@ == before[at].0@,
        forall|i: int| 0 <= i < before.len() && i != at ==> after[i] == #[trigger] before[i],
    ensures
        keys_ascend(after),
        entry_map(after) == entry_map(before).insert(before[at].0@, after[at].1),
{
    assert forall|i: int, j: int| 0 <= i < j < after.len() implies text_before(
        (#[trigger] after[i]).0@,
        (#[trigger] after[j]).0@,
    ) by {
        assert(text_before(before[i].0@, before[j].0@));
    }
    let expected = entry_map(before).insert(before[at].0@, after[at].1);
    assert forall|key: Seq<char>| #[trigger]
        entry_map(after).contains_key(key) <==> expected.contains_key(key) by {
        if has_key(after, key) {
            let i = key_index(after, key);
            assert(before[i].0@ == key);
        }
        if has_key(before, key) {
            let i = key_index(before, key);
            assert(after[i].0@ == key);
        }
        assert(after[at].0@ == before[at].0@);
    }
    assert forall|key: Seq<char>| #[trigger] entry_map(after).contains_key(key) implies entry_map(
        after,
    )[key] == expected[key] by {
        let i = key_index(after, key);
        assert(after[i].0@ == key);
        assert(before[i].0@ == key);
        lemma_entry_at(after, i);
        lemma_entry_at(before, i);
        if i != at {
            assert(after[i] == before[i]);
            lemma_before_irreflexive(key);
            if before[at].0@ == key {
                lemma_entry_at(before, at);
            }
        }
    }
    assert(entry_map(after) =~= expected);
}

/// Inserting an entry between smaller and greater keys adds its key.
pub proof fn lemma_insert<V>(before: Seq<(String, V)>, at: int, after: Seq<(String, V)>)
    requires
        keys_ascend(before),
        0 <= at <= before.len(),
        after == before.insert(at, after[at]),
        forall|i: int|
            0 <= i < at ==> text_before((#[trigger] before[i]).0@, after[at].0@),
        forall|i: int|
            at <= i < before.len() ==> text_before(after[at].0@, (#[trigger] before[i]).0@),
    ensures
        keys_ascend(after),
        entry_map(after) == entry_map(before).insert(after[at].0@, after[at].1),
{
    let name = after[at].0@;
    assert forall|i: int, j: int| 0 <= i < j < after.len() implies text_before(
        (#[trigger] after[i]).0@,
        (#[trigger] after[j]).0@,
    ) by {
        let a = if i < at { i } else { i - 1 };
        let b = if j < at { j } else { j - 1 };
        if i == at {
            assert(after[j] == before[b]);
        } else if j == at {
            assert(after[i] == before[a]);
        } else {
            assert(after[i] == before[a]);
            assert(after[j] == before[b]);
        }
    }
    let expected = entry_map(before).insert(name, after[at].1);
    assert forall|key: Seq<char>| #[trigger]
        entry_map(after).contains_key(key) <==> expected.contains_key(key) by {
        if has_key(after, key) {
            let i = key_index(after, key);
            if i < at {
                assert(before[i].0@ == key);
            } else if i > at {
                assert(before[i - 1].0@ == key);
            }
        }
        if has_key(before, key) {
            let i = key_index(before, key);
            if i < at {
                assert(after[i].0@ == key);
            } else {
                assert(after[i + 1].0@ == key);
            }
        }
        assert(after[at].0@ == name);
    }
    assert forall|key: Seq<char>| #[trigger] entry_map(after).contains_key(key) implies entry_map(
        after,
    )[key] == expected[key] by {
        let i = key_index(after, key);
        assert(after[i].0@ == key);
        lemma_entry_at(after, i);
        lemma_entry_at(after, at);
        if i < at {
            lemma_entry_at(before, i);
            assert(after[i] == before[i]);
        } else if i > at {
            lemma_entry_at(before, i - 1);
            assert(after[i] == before[i - 1]);
        }
    }
    assert(entry_map(after) =~= expected);
}

pub proof fn lemma_remove<V>(before: Seq<(String, V)>, at: int, after: Seq<(String, V)>)
    requires
        keys_ascend(before),
        0 <= at < before.len(),
        after == before.remove(at),
    ensures
        keys_ascend(after),
        entry_map(after) == entry_map(before).remove(before[at].0@),
{
    let name = before[at].0@;
    assert forall|i: int, j: int| 0 <= i < j < after.len() implies text_before(
        (#[trigger] after[i]).0@,
        (#[trigger] after[j]).0@,
    ) by {
        let a = if i < at { i } else { i + 1 };
        let b = if j < at { j } else { j + 1 };
        assert(after[i] == before[a]);
        assert(after[j] == before[b]);
    }
    let expected = entry_map(before).remove(name);
    assert forall|key: Seq<char>| #[trigger]
        entry_map(after).contains_key(key) <==> expected.contains_key(key) by {
        lemma_entry_at(before, at);
        if has_key(after, key) {
            let i = key_index(after, key);
            let b = if i < at { i } else { i + 1 };
            assert(after[i] == before[b]);
            lemma_entry_at(before, b);
        }
        if has_key(before, key) && key != name {
            let i = key_index(before, key);
            if i < at {
                assert(after[i].0@ == key);
            } else {
                assert(after[i - 1].0@ == key);
            }
        }
    }
    assert forall|key: Seq<char>| #[trigger] entry_map(after).contains_key(key) implies entry_map(
        after,
    )[key] == expected[key] by {
        let i = key_index(after, key);
        let b = if i < at { i } else { i + 1 };
        assert(after[i] == before[b]);
        lemma_entry_at(after, i);
        lemma_entry_at(before, b);
    }
    assert(entry_map(after) =~= expected);
}

/// The map of one more leading entry.
pub proof fn lemma_take_entries<V>(entries: Seq<(String, V)>, i: int)
    requires
        keys_ascend(entries),
        0 <= i < entries.len(),
    ensures
        keys_ascend(entries.take(i + 1)),
        !entry_map(entries.take(i)).contains_key(entries[i].0@),
        entry_map(entries.take(i + 1)) == entry_map(entries.take(i)).insert(
            entries[i].0@,
            entries[i].1,
        ),
{
    let before = entries.take(i);
    let after = entries.take(i + 1);
    assert(after == before.insert(i, after[i]));
    assert(keys_ascend(before)) by {
        assert forall|a: int, b: int| 0 <= a < b < before.len() implies text_before(
            (#[trigger] before[a]).0@,
            (#[trigger] before[b]).0@,
        ) by {
            assert(text_before(entries[a].0@, entries[b].0@));
        }
    }
    assert forall|k: int| 0 <= k < i implies text_before(
        (#[trigger] before[k]).0@,
        after[i].0@,
    ) by {
        assert(text_before(entries[k].0@, entries[i].0@));
    }
    lemma_insert(before, i, after);
    if has_key(before, entries[i].0@) {
        let k = key_index(before, entries[i].0@);
        assert(text_before(before[k].0@, after[i].0@));
        lemma_before_irreflexive(entries[i].0@);
    }
}

} // verus!

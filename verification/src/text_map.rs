//! A table with text keys, kept in the order of its keys.
//!
//! vstd specifies std's ordered maps only for keys of whose order it knows the laws, and
//! `String` is not among them.

use crate::text::{chars_of, same_text};
use vstd::prelude::*;

verus! {

/// `a` stands before `b` in the dictionary order of their characters.
pub open spec fn precedes(a: Seq<char>, b: Seq<char>) -> bool
    decreases a.len(),
{
    if b.len() == 0 {
        false
    } else if a.len() == 0 {
        true
    } else if a.first() != b.first() {
        a.first() < b.first()
    } else {
        precedes(a.drop_first(), b.drop_first())
    }
}

/// The order is transitive.
pub proof fn lemma_precedes_transitive(a: Seq<char>, b: Seq<char>, c: Seq<char>)
    requires
        precedes(a, b),
        precedes(b, c),
    ensures
        precedes(a, c),
    decreases a.len(),
{
    if a.len() > 0 && a.first() == b.first() && b.first() == c.first() {
        lemma_precedes_transitive(a.drop_first(), b.drop_first(), c.drop_first());
    }
}

/// Nothing stands before itself.
pub proof fn lemma_precedes_irreflexive(a: Seq<char>)
    ensures
        !precedes(a, a),
    decreases a.len(),
{
    if a.len() > 0 {
        lemma_precedes_irreflexive(a.drop_first());
    }
}

/// Of two different texts one stands before the other.
pub proof fn lemma_precedes_total(a: Seq<char>, b: Seq<char>)
    requires
        !precedes(a, b),
        !precedes(b, a),
    ensures
        a == b,
    decreases a.len(),
{
    if a.len() > 0 && b.len() > 0 {
        lemma_precedes_total(a.drop_first(), b.drop_first());
        assert(a =~= seq![a.first()] + a.drop_first());
        assert(b =~= seq![b.first()] + b.drop_first());
    } else {
        assert(a =~= b);
    }
}

/// Whether `a` stands before `b`.
pub fn stands_before(a: &str, b: &str) -> (before: bool)
    ensures
        before == precedes(a@, b@),
{
    let x = chars_of(a);
    let y = chars_of(b);
    let mut i: usize = 0;
    assert(x@.skip(0) =~= x@);
    assert(y@.skip(0) =~= y@);
    while i < x.len() && i < y.len() && x[i] == y[i]
        invariant
            i <= x@.len(),
            i <= y@.len(),
            precedes(x@, y@) == precedes(x@.skip(i as int), y@.skip(i as int)),
        decreases x@.len() - i,
    {
        assert(x@.skip(i as int).drop_first() =~= x@.skip(i + 1));
        assert(y@.skip(i as int).drop_first() =~= y@.skip(i + 1));
        i += 1;
    }
    i < y.len() && (i == x.len() || x[i] < y[i])
}

/// A table from texts to values.
pub struct TextMap<V> {
    entries: Vec<(String, V)>,
}

/// Keys stand in order, so none stands twice.
pub open spec fn in_key_order<V>(entries: Seq<(String, V)>) -> bool {
    forall|i: int, j: int|
        0 <= i < j < entries.len() ==> precedes(#[trigger] entries[i].0@, #[trigger] entries[j].0@)
}

/// `key` is the key of an entry.
pub open spec fn has_key<V>(entries: Seq<(String, V)>, key: Seq<char>) -> bool {
    exists|i: int| 0 <= i < entries.len() && #[trigger] entries[i].0@ == key
}

/// A place at which `key` stands.
pub open spec fn slot<V>(entries: Seq<(String, V)>, key: Seq<char>) -> int {
    choose|i: int| 0 <= i < entries.len() && #[trigger] entries[i].0@ == key
}

/// The table that a list of entries stands for.
pub open spec fn map_of<V>(entries: Seq<(String, V)>) -> Map<Seq<char>, V> {
    Map::new(
        |key: Seq<char>| has_key(entries, key),
        |key: Seq<char>| entries[slot(entries, key)].1,
    )
}

/// In an ordered list a key stands at one place only.
pub proof fn lemma_key_once<V>(entries: Seq<(String, V)>, i: int, j: int)
    requires
        in_key_order(entries),
        0 <= i < entries.len(),
        0 <= j < entries.len(),
        entries[i].0@ == entries[j].0@,
    ensures
        i == j,
{
    lemma_precedes_irreflexive(entries[i].0@);
    if i < j {
        assert(precedes(entries[i].0@, entries[j].0@));
    } else if j < i {
        assert(precedes(entries[j].0@, entries[i].0@));
    }
}

/// An entry of an ordered list is what the table holds under its key.
pub proof fn lemma_entry_in_map<V>(entries: Seq<(String, V)>, i: int)
    requires
        in_key_order(entries),
        0 <= i < entries.len(),
    ensures
        map_of(entries).contains_key(entries[i].0@),
        map_of(entries)[entries[i].0@] == entries[i].1,
{
    let key = entries[i].0@;
    lemma_key_once(entries, i, slot(entries, key));
}

/// Replacing the value of an entry.
proof fn lemma_update<V>(entries: Seq<(String, V)>, i: int, e: (String, V))
    requires
        in_key_order(entries),
        0 <= i < entries.len(),
        entries[i].0@ == e.0@,
    ensures
        in_key_order(entries.update(i, e)),
        map_of(entries.update(i, e)) == map_of(entries).insert(e.0@, e.1),
{
    let after = entries.update(i, e);
    assert forall|a: int, b: int| 0 <= a < b < after.len() implies precedes(
        #[trigger] after[a].0@,
        #[trigger] after[b].0@,
    ) by {
        assert(precedes(entries[a].0@, entries[b].0@));
    }
    lemma_same_map(entries, after, i, e);
}

proof fn lemma_same_map<V>(
    entries: Seq<(String, V)>,
    after: Seq<(String, V)>,
    i: int,
    e: (String, V),
)
    requires
        in_key_order(entries),
        in_key_order(after),
        0 <= i < entries.len(),
        entries[i].0@ == e.0@,
        after == entries.update(i, e),
    ensures
        map_of(after) == map_of(entries).insert(e.0@, e.1),
{
    let want = map_of(entries).insert(e.0@, e.1);
    assert forall|key: Seq<char>| map_of(after).contains_key(key) <==> want.contains_key(key) by {
        if has_key(after, key) {
            let k = choose|k: int| 0 <= k < after.len() && #[trigger] after[k].0@ == key;
            assert(entries[k].0@ == key);
        }
        if has_key(entries, key) {
            let k = choose|k: int| 0 <= k < entries.len() && #[trigger] entries[k].0@ == key;
            assert(after[k].0@ == key);
        }
    }
    assert forall|key: Seq<char>| #[trigger] map_of(after).contains_key(key) implies map_of(
        after,
    )[key] == want[key] by {
        let k = choose|k: int| 0 <= k < after.len() && #[trigger] after[k].0@ == key;
        lemma_entry_in_map(after, k);
        if k != i {
            lemma_entry_in_map(entries, k);
            if key == e.0@ {
                lemma_key_once(entries, i, k);
            }
        }
    }
    assert(map_of(after) =~= want);
}

/// Inserting an entry at its place in the order.
proof fn lemma_insert<V>(entries: Seq<(String, V)>, i: int, e: (String, V))
    requires
        in_key_order(entries),
        0 <= i <= entries.len(),
        forall|j: int| 0 <= j < i ==> precedes(#[trigger] entries[j].0@, e.0@),
        i < entries.len() ==> precedes(e.0@, entries[i].0@),
    ensures
        in_key_order(entries.insert(i, e)),
        map_of(entries.insert(i, e)) == map_of(entries).insert(e.0@, e.1),
        !has_key(entries, e.0@),
{
    let after = entries.insert(i, e);
    assert forall|j: int| i <= j < entries.len() implies precedes(
        e.0@,
        #[trigger] entries[j].0@,
    ) by {
        if j > i {
            lemma_precedes_transitive(e.0@, entries[i].0@, entries[j].0@);
        }
    }
    assert forall|a: int, b: int| 0 <= a < b < after.len() implies precedes(
        #[trigger] after[a].0@,
        #[trigger] after[b].0@,
    ) by {
        let x = if a < i {
            a
        } else {
            a - 1
        };
        let y = if b < i {
            b
        } else {
            b - 1
        };
        if a == i {
            assert(after[b] == entries[y]);
        } else if b == i {
            assert(after[a] == entries[x]);
        } else {
            assert(after[a] == entries[x]);
            assert(after[b] == entries[y]);
        }
    }
    assert(!has_key(entries, e.0@)) by {
        if has_key(entries, e.0@) {
            let k = choose|k: int| 0 <= k < entries.len() && #[trigger] entries[k].0@ == e.0@;
            lemma_precedes_irreflexive(e.0@);
        }
    }
    let want = map_of(entries).insert(e.0@, e.1);
    assert forall|key: Seq<char>| map_of(after).contains_key(key) <==> want.contains_key(key) by {
        if has_key(after, key) {
            let k = choose|k: int| 0 <= k < after.len() && #[trigger] after[k].0@ == key;
            if k < i {
                assert(entries[k].0@ == key);
            } else if k > i {
                assert(entries[k - 1].0@ == key);
            }
        }
        if has_key(entries, key) {
            let k = choose|k: int| 0 <= k < entries.len() && #[trigger] entries[k].0@ == key;
            if k < i {
                assert(after[k].0@ == key);
            } else {
                assert(after[k + 1].0@ == key);
            }
        }
        assert(after[i].0@ == e.0@);
    }
    assert forall|key: Seq<char>| #[trigger] map_of(after).contains_key(key) implies map_of(
        after,
    )[key] == want[key] by {
        let k = choose|k: int| 0 <= k < after.len() && #[trigger] after[k].0@ == key;
        lemma_entry_in_map(after, k);
        if k < i {
            assert(after[k] == entries[k]);
            lemma_entry_in_map(entries, k);
        } else if k > i {
            assert(after[k] == entries[k - 1]);
            lemma_entry_in_map(entries, k - 1);
        }
    }
    assert(map_of(after) =~= want);
}

/// Removing an entry.
proof fn lemma_remove<V>(entries: Seq<(String, V)>, i: int)
    requires
        in_key_order(entries),
        0 <= i < entries.len(),
    ensures
        in_key_order(entries.remove(i)),
        map_of(entries.remove(i)) == map_of(entries).remove(entries[i].0@),
{
    let after = entries.remove(i);
    let gone = entries[i].0@;
    assert forall|a: int, b: int| 0 <= a < b < after.len() implies precedes(
        #[trigger] after[a].0@,
        #[trigger] after[b].0@,
    ) by {
        let x = if a < i {
            a
        } else {
            a + 1
        };
        let y = if b < i {
            b
        } else {
            b + 1
        };
        assert(after[a] == entries[x]);
        assert(after[b] == entries[y]);
        assert(precedes(entries[x].0@, entries[y].0@));
    }
    let want = map_of(entries).remove(gone);
    assert forall|key: Seq<char>| map_of(after).contains_key(key) <==> want.contains_key(key) by {
        if has_key(after, key) {
            let k = choose|k: int| 0 <= k < after.len() && #[trigger] after[k].0@ == key;
            let x = if k < i {
                k
            } else {
                k + 1
            };
            assert(entries[x].0@ == key);
            if key == gone {
                lemma_key_once(entries, i, x);
            }
        }
        if has_key(entries, key) && key != gone {
            let k = choose|k: int| 0 <= k < entries.len() && #[trigger] entries[k].0@ == key;
            if k < i {
                assert(after[k].0@ == key);
            } else {
                assert(after[k - 1].0@ == key);
            }
        }
    }
    assert forall|key: Seq<char>| #[trigger] map_of(after).contains_key(key) implies map_of(
        after,
    )[key] == want[key] by {
        let k = choose|k: int| 0 <= k < after.len() && #[trigger] after[k].0@ == key;
        lemma_entry_in_map(after, k);
        let x = if k < i {
            k
        } else {
            k + 1
        };
        assert(after[k] == entries[x]);
        lemma_entry_in_map(entries, x);
        assert(want.contains_key(key));
    }
    assert(map_of(after) =~= want);
}

impl<V> View for TextMap<V> {
    type V = Map<Seq<char>, V>;

    closed spec fn view(&self) -> Map<Seq<char>, V> {
        map_of(self.entries@)
    }
}

impl<V> TextMap<V> {
    #[verifier::type_invariant]
    spec fn ordered(self) -> bool {
        in_key_order(self.entries@)
    }

    /// An empty table.
    pub fn new() -> (map: TextMap<V>)
        ensures
            map@ == Map::<Seq<char>, V>::empty(),
    {
        let map = TextMap { entries: Vec::new() };
        assert(map@ =~= Map::<Seq<char>, V>::empty());
        map
    }

    /// The entries in the order of their keys.
    pub fn entries(&self) -> (entries: &Vec<(String, V)>)
        ensures
            in_key_order(entries@),
            map_of(entries@) == self@,
    {
        proof {
            use_type_invariant(self);
        }
        &self.entries
    }

    /// The place of `key`: the first entry that does not stand before it.
    fn place(entries: &Vec<(String, V)>, key: &str) -> (i: usize)
        requires
            in_key_order(entries@),
        ensures
            i <= entries@.len(),
            forall|j: int| 0 <= j < i ==> precedes(#[trigger] entries@[j].0@, key@),
            i < entries@.len() ==> !precedes(entries@[i as int].0@, key@),
            has_key(entries@, key@) <==> i < entries@.len() && entries@[i as int].0@ == key@,
    {
        let mut i: usize = 0;
        while i < entries.len() && stands_before(entries[i].0.as_str(), key)
            invariant
                i <= entries@.len(),
                forall|j: int| 0 <= j < i ==> precedes(#[trigger] entries@[j].0@, key@),
            decreases entries@.len() - i,
        {
            i += 1;
        }
        proof {
            if has_key(entries@, key@) {
                let k = choose|k: int|
                    0 <= k < entries@.len() && #[trigger] entries@[k].0@ == key@;
                lemma_precedes_irreflexive(key@);
                if i < k {
                    assert(precedes(entries@[i as int].0@, entries@[k].0@));
                }
            }
        }
        i
    }

    /// The value under `key`.
    pub fn get(&self, key: &str) -> (value: Option<&V>)
        ensures
            match value {
                Some(v) => self@.contains_key(key@) && *v == self@[key@],
                None => !self@.contains_key(key@),
            },
    {
        proof {
            use_type_invariant(self);
        }
        let i = TextMap::<V>::place(&self.entries, key);
        if i < self.entries.len() && same_text(self.entries[i].0.as_str(), key) {
            proof {
                lemma_entry_in_map(self.entries@, i as int);
            }
            Some(&self.entries[i].1)
        } else {
            None
        }
    }

    /// Puts `value` under `key`, in place of what stood there.
    pub fn insert(&mut self, key: String, value: V)
        ensures
            final(self)@ == old(self)@.insert(key@, value),
    {
        proof {
            use_type_invariant(&*self);
        }
        let mut entries: Vec<(String, V)> = Vec::new();
        std::mem::swap(&mut entries, &mut self.entries);
        let i = TextMap::<V>::place(&entries, key.as_str());
        let ghost before = entries@;
        let ghost e = (key, value);
        if i < entries.len() && same_text(entries[i].0.as_str(), key.as_str()) {
            proof {
                lemma_update(before, i as int, e);
            }
            entries.set(i, (key, value));
        } else {
            proof {
                if i < entries@.len() {
                    if !precedes(key@, before[i as int].0@) {
                        lemma_precedes_total(key@, before[i as int].0@);
                    }
                }
                lemma_insert(before, i as int, e);
            }
            entries.insert(i, (key, value));
        }
        self.entries = entries;
    }

    /// Takes out what stands under `key`.
    pub fn remove(&mut self, key: &str) -> (value: Option<V>)
        ensures
            final(self)@ == old(self)@.remove(key@),
            match value {
                Some(v) => old(self)@.contains_key(key@) && v == old(self)@[key@],
                None => !old(self)@.contains_key(key@),
            },
    {
        proof {
            use_type_invariant(&*self);
        }
        let mut entries: Vec<(String, V)> = Vec::new();
        std::mem::swap(&mut entries, &mut self.entries);
        let i = TextMap::<V>::place(&entries, key);
        let ghost before = entries@;
        if i < entries.len() && same_text(entries[i].0.as_str(), key) {
            proof {
                lemma_remove(before, i as int);
                lemma_entry_in_map(before, i as int);
            }
            let e = entries.remove(i);
            self.entries = entries;
            Some(e.1)
        } else {
            assert(map_of(before) =~= map_of(before).remove(key@));
            self.entries = entries;
            None
        }
    }
}

} // verus!

//! Maps from text.
use crate::ordered_set::OrderedSet;
use crate::text::same_text;
use vstd::prelude::*;

verus! {

/// What a list of entries gives a key: the value of the first entry with it.
pub open spec fn lookup<V>(entries: Seq<(String, V)>, key: Seq<char>) -> Option<V>
    decreases entries.len(),
{
    if entries.len() == 0 {
        None
    } else if entries[0].0@ == key {
        Some(entries[0].1)
    } else {
        lookup(entries.drop_first(), key)
    }
}

/// No key stands twice in a list of entries.
pub open spec fn keys_distinct<V>(entries: Seq<(String, V)>) -> bool {
    forall|i: int, j: int| 0 <= i < j < entries.len() ==> (#[trigger] entries[i]).0@ != (#[trigger] entries[j]).0@
}

/// A map from texts to values.
#[derive(Debug, Clone)]
pub struct TextMap<V> {
    entries: Vec<(String, V)>,
}

impl<V> TextMap<V> {
    pub closed spec fn entries(&self) -> Seq<(String, V)> {
        self.entries@
    }

    /// No key has two entries.
    pub open spec fn wf(&self) -> bool {
        keys_distinct(self.entries())
    }

    /// The value of a key.
    pub open spec fn at(&self, key: Seq<char>) -> Option<V> {
        lookup(self.entries(), key)
    }

    pub fn new() -> (out: Self)
        ensures
            out.wf(),
            out.entries() == Seq::<(String, V)>::empty(),
            forall|key: Seq<char>| #[trigger] out.at(key) is None,
    {
        TextMap { entries: Vec::new() }
    }

    pub fn len(&self) -> (out: usize)
        ensures
            out == self.entries().len(),
    {
        self.entries.len()
    }

    /// The key of the entry with the given number.
    pub fn key_at(&self, i: usize) -> (out: &String)
        requires
            i < self.entries().len(),
        ensures
            *out == self.entries()[i as int].0,
    {
        &self.entries[i].0
    }

    /// The value of the entry with the given number.
    pub fn value_at(&self, i: usize) -> (out: &V)
        requires
            i < self.entries().len(),
        ensures
            *out == self.entries()[i as int].1,
    {
        &self.entries[i].1
    }

    /// The number of the entry with this key.
    pub fn position(&self, key: &str) -> (out: Option<usize>)
        ensures
            match out {
                Some(i) => i < self.entries().len() && self.entries()[i as int].0@ == key@
                    && self.at(key@) == Some(self.entries()[i as int].1) && forall|k: int|
                    0 <= k < i ==> (#[trigger] self.entries()[k]).0@ != key@,
                None => self.at(key@) is None && forall|k: int|
                    0 <= k < self.entries().len() ==> (#[trigger] self.entries()[k]).0@ != key@,
            },
    {
        let mut i: usize = 0;
        assert(self.entries@.skip(0) =~= self.entries@);
        while i < self.entries.len()
            invariant
                i <= self.entries@.len(),
                lookup(self.entries@.skip(i as int), key@) == lookup(self.entries@, key@),
                forall|k: int| 0 <= k < i ==> (#[trigger] self.entries@[k]).0@ != key@,
            decreases self.entries@.len() - i,
        {
            assert(self.entries@.skip(i as int).drop_first() =~= self.entries@.skip(i + 1));
            if same_text(self.entries[i].0.as_str(), key) {
                return Some(i);
            }
            i = i + 1;
        }
        None
    }

    pub fn get(&self, key: &str) -> (out: Option<&V>)
        ensures
            match out {
                Some(value) => self.at(key@) == Some(*value),
                None => self.at(key@) is None,
            },
    {
        match self.position(key) {
            Some(i) => Some(&self.entries[i].1),
            None => None,
        }
    }

    /// Sets the value of a key.
    pub fn insert(&mut self, key: String, value: V)
        requires
            old(self).wf(),
        ensures
            final(self).wf(),
            final(self).at(key@) == Some(value),
            forall|k: Seq<char>| k != key@ ==> #[trigger] final(self).at(k) == old(self).at(k),
    {
        let ghost before = self.entries@;
        match self.position(key.as_str()) {
            Some(i) => {
                let kept = self.entries[i].0.clone();
                self.entries.set(i, (kept, value));
                proof {
                    let after = self.entries@;
                    assert forall|k: Seq<char>| #[trigger]
                        lookup(after, k) == (if k == key@ {
                        Some(value)
                    } else {
                        lookup(before, k)
                    }) by {
                        lookup_updated(before, i as int, kept, value, k);
                    }
                    assert(keys_distinct(after)) by {
                        assert(forall|n: int| 0 <= n < after.len() ==> after[n].0@ == before[n].0@);
                    }
                }
            },
            None => {
                let ghost text = key@;
                self.entries.push((key, value));
                proof {
                    let after = self.entries@;
                    assert forall|k: Seq<char>| #[trigger]
                        lookup(after, k) == (if k == text {
                        Some(value)
                    } else {
                        lookup(before, k)
                    }) by {
                        lookup_pushed(before, (key, value), k);
                    }
                }
            },
        }
    }

    /// The value of the entry with the given number, to be changed in place.
    pub fn value_mut_at(&mut self, i: usize) -> (out: &mut V)
        requires
            i < old(self).entries().len(),
        ensures
            *out == old(self).entries()[i as int].1,
            final(self).entries() == old(self).entries().update(
                i as int,
                (old(self).entries()[i as int].0, *final(out)),
            ),
    {
        &mut self.entries[i].1
    }

    /// Keeps the entries whose keys are in a set.
    pub fn retain_keys(&mut self, keys: &OrderedSet<String>)
        requires
            old(self).wf(),
            keys.wf(),
        ensures
            final(self).wf(),
            forall|key: Seq<char>| #[trigger]
                final(self).at(key) == (if keys.holds(key) {
                    old(self).at(key)
                } else {
                    None
                }),
    {
        let mut taken: Vec<(String, V)> = Vec::new();
        std::mem::swap(&mut taken, &mut self.entries);
        let ghost all = taken@;
        assert forall|key: Seq<char>| #[trigger] lookup(Seq::<(String, V)>::empty(), key) is None by {}
        for entry in it: taken
            invariant
                it.seq() == all,
                keys_distinct(all),
                keys.wf(),
                self.wf(),
                forall|key: Seq<char>| #[trigger]
                    self.at(key) == (if keys.holds(key) {
                        lookup(all.take(it.index() as int), key)
                    } else {
                        None
                    }),
        {
            let ghost i = it.index() as int;
            proof {
                assert(all.take(i + 1) =~= all.take(i).push(entry));
                assert forall|key: Seq<char>| #[trigger]
                    lookup(all.take(i + 1), key) == (if key == entry.0@ {
                    Some(entry.1)
                } else {
                    lookup(all.take(i), key)
                }) by {
                    lookup_pushed(all.take(i), entry, key);
                    if key == entry.0@ {
                        absent_keys_have_no_value(all.take(i), key);
                    }
                }
            }
            let (key, value) = entry;
            if keys.contains(&key) {
                self.insert(key, value);
            }
        }
        assert(all.take(all.len() as int) =~= all);
    }

    /// The value of a key to be changed in place; a key without a value gets
    /// the given one first.
    pub fn entry_or(&mut self, key: &str, default: V) -> (out: &mut V)
        requires
            old(self).wf(),
        ensures
            *out == match old(self).at(key@) {
                Some(value) => value,
                None => default,
            },
            final(self).wf(),
            final(self).at(key@) == Some(*final(out)),
            forall|k: Seq<char>| k != key@ ==> #[trigger] final(self).at(k) == old(self).at(k),
    {
        let ghost start = self.entries@;
        let i: usize = match self.position(key) {
            Some(i) => i,
            None => {
                self.entries.push((key.to_owned(), default));
                self.entries.len() - 1
            },
        };
        let ghost before = self.entries@;
        proof {
            assert(keys_distinct(before));
            assert forall|k: Seq<char>, v: V| #[trigger]
                lookup(before.update(i as int, (before[i as int].0, v)), k) == (if k == key@ {
                Some(v)
            } else {
                lookup(start, k)
            }) by {
                lookup_updated(before, i as int, before[i as int].0, v, k);
                if before.len() > start.len() {
                    lookup_pushed(start, before.last(), k);
                }
            }
        }
        &mut self.entries[i].1
    }
}

proof fn absent_keys_have_no_value<V>(entries: Seq<(String, V)>, key: Seq<char>)
    requires
        forall|i: int| 0 <= i < entries.len() ==> (#[trigger] entries[i]).0@ != key,
    ensures
        lookup(entries, key) is None,
    decreases entries.len(),
{
    if entries.len() > 0 {
        assert(entries[0].0@ != key);
        assert forall|i: int| 0 <= i < entries.drop_first().len() implies (
        #[trigger] entries.drop_first()[i]).0@ != key by {
            assert(entries[i + 1].0@ != key);
        }
        absent_keys_have_no_value(entries.drop_first(), key);
    }
}

proof fn lookup_pushed<V>(entries: Seq<(String, V)>, entry: (String, V), k: Seq<char>)
    ensures
        lookup(entries.push(entry), k) == (match lookup(entries, k) {
            Some(v) => Some(v),
            None => if entry.0@ == k {
                Some(entry.1)
            } else {
                None
            },
        }),
    decreases entries.len(),
{
    let all = entries.push(entry);
    if entries.len() == 0 {
        assert(all[0] == entry);
        assert(all.drop_first() =~= Seq::<(String, V)>::empty());
        assert(lookup(all.drop_first(), k) is None);
    } else {
        assert(all[0] == entries[0]);
        assert(all.drop_first() =~= entries.drop_first().push(entry));
        lookup_pushed(entries.drop_first(), entry, k);
    }
}

proof fn lookup_updated<V>(
    entries: Seq<(String, V)>,
    i: int,
    key: String,
    value: V,
    k: Seq<char>,
)
    requires
        0 <= i < entries.len(),
        entries[i].0@ == key@,
        forall|n: int| 0 <= n < i ==> (#[trigger] entries[n]).0@ != key@,
    ensures
        lookup(entries.update(i, (key, value)), k) == (if k == key@ {
            Some(value)
        } else {
            lookup(entries, k)
        }),
    decreases entries.len(),
{
    let all = entries.update(i, (key, value));
    if i == 0 {
        assert(all.drop_first() =~= entries.drop_first());
    } else {
        assert(all.drop_first() =~= entries.drop_first().update(i - 1, (key, value)));
        assert forall|n: int| 0 <= n < i - 1 implies (#[trigger] entries.drop_first()[n]).0@
            != key@ by {
            assert(entries[n + 1].0@ != key@);
        }
        lookup_updated(entries.drop_first(), i - 1, key, value, k);
        assert(entries[0].0@ != key@);
    }
}

/// What a key is looked up as is the value of the first entry with that key.
pub proof fn keys_name_their_first_entry<V>(entries: Seq<(String, V)>, key: Seq<char>, i: int)
    requires
        0 <= i < entries.len(),
        entries[i].0@ == key,
        forall|k: int| 0 <= k < i ==> (#[trigger] entries[k]).0@ != key,
    ensures
        lookup(entries, key) == Some(entries[i].1),
    decreases entries.len(),
{
    if i > 0 {
        let rest = entries.drop_first();
        assert(entries[0].0@ != key);
        assert forall|k: int| 0 <= k < i - 1 implies (#[trigger] rest[k]).0@ != key by {
            assert(entries[k + 1].0@ != key);
        }
        assert(rest[i - 1] == entries[i]);
        keys_name_their_first_entry(rest, key, i - 1);
    }
}

/// In a map in which no key has two entries, each entry gives its key's value,
/// and a key without an entry has none.
pub proof fn entries_give_their_values<V>(map: TextMap<V>, key: Seq<char>, i: int)
    requires
        map.wf(),
    ensures
        0 <= i < map.entries().len() && map.entries()[i].0@ == key ==> map.at(key) == Some(
            map.entries()[i].1,
        ),
        (forall|k: int| 0 <= k < map.entries().len() ==> (#[trigger] map.entries()[k]).0@ != key)
            ==> map.at(key) is None,
{
    if 0 <= i < map.entries().len() && map.entries()[i].0@ == key {
        keys_name_their_first_entry(map.entries(), key, i);
    }
    if forall|k: int| 0 <= k < map.entries().len() ==> (#[trigger] map.entries()[k]).0@ != key {
        absent_keys_have_no_value(map.entries(), key);
    }
}

} // verus!
